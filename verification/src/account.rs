//! Addresses, accounts and what is needed to connect with one.
use crate::table::Key;
use std::str::FromStr;
use vstd::prelude::*;

verus! {

/// An address in its three parts.
pub struct JidView {
    /// The part before the `@`.
    pub node: Option<Seq<char>>,
    /// The server.
    pub domain: Seq<char>,
    /// The part after the `/`.
    pub resource: Option<Seq<char>>,
}

impl JidView {
    /// The address as it is written: `node@domain/resource`.
    pub open spec fn text(self) -> Seq<char> {
        let start = match self.node {
            Some(node) => node + "@"@ + self.domain,
            None => self.domain,
        };
        match self.resource {
            Some(resource) => start + "/"@ + resource,
            None => start,
        }
    }

    /// The address without its resource.
    pub open spec fn bare(self) -> JidView {
        JidView { resource: None, ..self }
    }

    /// The address with this resource.
    pub open spec fn with_resource(self, resource: Seq<char>) -> JidView {
        JidView { resource: Some(resource), ..self }
    }
}

/// The view of an optional text.
pub open spec fn text_view(text: Option<String>) -> Option<Seq<char>> {
    match text {
        Some(t) => Some(t@),
        None => None,
    }
}

/// A copy of an optional text.
pub fn clone_text(text: &Option<String>) -> (r: Option<String>)
    ensures
        r == *text,
{
    match text {
        Some(t) => Some(t.clone()),
        None => None,
    }
}

/// `node@domain`, or the domain alone.
fn bare_text(node: &Option<String>, domain: &String) -> (r: String)
    ensures
        r@ == (JidView { node: text_view(*node), domain: domain@, resource: None }).text(),
{
    match node {
        Some(n) => n.clone().concat("@").concat(domain.as_str()),
        None => domain.clone(),
    }
}

/// An address with or without a resource.
#[derive(Debug)]
pub struct Jid {
    /// The part before the `@`.
    pub node: Option<String>,
    /// The server.
    pub domain: String,
    /// The part after the `/`.
    pub resource: Option<String>,
}

/// An address without a resource.
#[derive(Debug)]
pub struct BareJid {
    /// The part before the `@`.
    pub node: Option<String>,
    /// The server.
    pub domain: String,
}

/// An address with a resource.
#[derive(Debug)]
pub struct FullJid {
    /// The part before the `@`.
    pub node: Option<String>,
    /// The server.
    pub domain: String,
    /// The part after the `/`.
    pub resource: String,
}

/// An account is the full address that it is connected as.
pub type Account = FullJid;

impl View for Jid {
    type V = JidView;

    open spec fn view(&self) -> JidView {
        JidView {
            node: text_view(self.node),
            domain: self.domain@,
            resource: text_view(self.resource),
        }
    }
}

impl View for BareJid {
    type V = JidView;

    open spec fn view(&self) -> JidView {
        JidView { node: text_view(self.node), domain: self.domain@, resource: None }
    }
}

impl View for FullJid {
    type V = JidView;

    open spec fn view(&self) -> JidView {
        JidView {
            node: text_view(self.node),
            domain: self.domain@,
            resource: Some(self.resource@),
        }
    }
}

impl Clone for Jid {
    fn clone(&self) -> (r: Self)
        ensures
            r == *self,
    {
        Jid {
            node: clone_text(&self.node),
            domain: self.domain.clone(),
            resource: clone_text(&self.resource),
        }
    }
}

impl Clone for BareJid {
    fn clone(&self) -> (r: Self)
        ensures
            r == *self,
    {
        BareJid { node: clone_text(&self.node), domain: self.domain.clone() }
    }
}

impl Clone for FullJid {
    fn clone(&self) -> (r: Self)
        ensures
            r == *self,
    {
        FullJid {
            node: clone_text(&self.node),
            domain: self.domain.clone(),
            resource: self.resource.clone(),
        }
    }
}

impl Jid {
    /// The address as it is written.
    pub fn to_string(&self) -> (r: String)
        ensures
            r@ == self@.text(),
    {
        let start = bare_text(&self.node, &self.domain);
        match &self.resource {
            Some(resource) => start.concat("/").concat(resource.as_str()),
            None => start,
        }
    }

    /// The address without its resource.
    pub fn to_bare(&self) -> (r: BareJid)
        ensures
            r@ == self@.bare(),
    {
        BareJid { node: clone_text(&self.node), domain: self.domain.clone() }
    }

    /// The full address where there is a resource, the bare one where there is none.
    pub fn try_into_full(self) -> (r: Result<FullJid, BareJid>)
        ensures
            match r {
                Ok(full) => full@ == self@ && self@.resource is Some,
                Err(bare) => bare@ == self@ && self@.resource is None,
            },
    {
        match self.resource {
            Some(resource) => Ok(FullJid { node: self.node, domain: self.domain, resource }),
            None => Err(BareJid { node: self.node, domain: self.domain }),
        }
    }
}

impl BareJid {
    /// The address as it is written.
    pub fn to_string(&self) -> (r: String)
        ensures
            r@ == self@.text(),
    {
        bare_text(&self.node, &self.domain)
    }

    /// The full address with the resource that the text stands for, or why it stands for none.
    pub fn with_resource_str(&self, resource: &str) -> (r: Result<FullJid, String>)
        ensures
            match (r, resource_of(resource@)) {
                (Ok(full), Ok(prepared)) => full@ == self@.with_resource(prepared),
                (Err(text), Err(reason)) => text@ == reason,
                _ => false,
            },
            plain_resource(resource@) ==> r is Ok && (r->Ok_0)@ == self@.with_resource(resource@),
    {
        match prepare_resource(resource) {
            Ok(prepared) => Ok(
                FullJid {
                    node: clone_text(&self.node),
                    domain: self.domain.clone(),
                    resource: prepared,
                },
            ),
            Err(reason) => Err(reason),
        }
    }
}

impl FullJid {
    /// The address as it is written.
    pub fn to_string(&self) -> (r: String)
        ensures
            r@ == self@.text(),
    {
        bare_text(&self.node, &self.domain).concat("/").concat(self.resource.as_str())
    }

    /// The same address, as one that may have a resource.
    pub fn to_jid(&self) -> (r: Jid)
        ensures
            r@ == self@,
    {
        Jid {
            node: clone_text(&self.node),
            domain: self.domain.clone(),
            resource: Some(self.resource.clone()),
        }
    }
}

/// Two addresses are the same key where they are written alike.
impl Key for FullJid {
    open spec fn id(&self) -> Seq<Seq<char>> {
        seq![self@.text()]
    }

    fn same(&self, other: &Self) -> bool {
        let r = self.to_string() == other.to_string();
        assert(self.id()[0] == self@.text() && other.id()[0] == other@.text());
        r
    }
}

/// What reading a text as an address gives: its parts after normalisation, or the reason why it is
/// none.
pub uninterp spec fn jid_of(text: Seq<char>) -> Result<JidView, Seq<char>>;

/// The view of what a reading gave.
pub open spec fn jid_result_view(r: Result<Jid, String>) -> Result<JidView, Seq<char>> {
    match r {
        Ok(jid) => Ok(jid@),
        Err(reason) => Err(reason@),
    }
}

/// Calls `jid::Jid::from_str` and hands out the parts that `node`, `domain` and `resource` give, or
/// the text of the error. The result depends on the given text alone: splitting it and normalising
/// each part reads nothing else.
#[verifier::external_body]
pub(crate) fn read_jid(text: &str) -> (r: Result<Jid, String>)
    ensures
        jid_result_view(r) == jid_of(text@),
{
    match jid::Jid::from_str(text) {
        Ok(jid) => Ok(
            Jid {
                node: jid.node().map(|part| part.to_string()),
                domain: jid.domain().to_string(),
                resource: jid.resource().map(|part| part.to_string()),
            },
        ),
        Err(error) => Err(error.to_string()),
    }
}

/// What preparing a text as a resource gives: the resource after normalisation, or the reason why
/// it can be none.
pub uninterp spec fn resource_of(text: Seq<char>) -> Result<Seq<char>, Seq<char>>;

/// Whether the text is a resource just as it stands: printable ASCII, neither empty nor too long.
pub open spec fn plain_resource(text: Seq<char>) -> bool {
    &&& 1 <= text.len() <= 1023
    &&& forall|i: int| 0 <= i < text.len() ==> ' ' <= #[trigger] text[i] <= '~'
}

/// Calls `jid::ResourcePart::new`, which is what `jid::BareJid::with_resource_str` calls before it
/// joins the parts. The result depends on the given text alone; printable ASCII of 1 to 1023
/// characters is taken as it stands.
#[verifier::external_body]
fn prepare_resource(text: &str) -> (r: Result<String, String>)
    ensures
        match r {
            Ok(prepared) => resource_of(text@) == Ok::<Seq<char>, Seq<char>>(prepared@),
            Err(reason) => resource_of(text@) == Err::<Seq<char>, Seq<char>>(reason@),
        },
        plain_resource(text@) ==> r is Ok && (r->Ok_0)@ == text@,
{
    match jid::ResourcePart::new(text) {
        Ok(prepared) => Ok(prepared.to_string()),
        Err(error) => Err(error.to_string()),
    }
}

/// Whether the character is one of `A` to `Z`, `a` to `z` and `0` to `9`.
pub open spec fn is_alphanumeric(c: char) -> bool {
    'A' <= c <= 'Z' || 'a' <= c <= 'z' || '0' <= c <= '9'
}

/// Whether the text can follow `aparte_` in a resource that is drawn for an account without one.
pub open spec fn is_suffix(text: Seq<char>) -> bool {
    &&& text.len() == 5
    &&& forall|i: int| 0 <= i < text.len() ==> is_alphanumeric(#[trigger] text[i])
}

/// Draws characters from `rand::distr::Alphanumeric` with the generator of `rand::rng`. Which ones
/// come is left to chance: each is an ASCII letter or digit, and there are as many as asked for.
#[verifier::external_body]
pub(crate) fn random_alphanumeric(count: usize) -> (r: String)
    ensures
        r@.len() == count,
        forall|i: int| 0 <= i < r@.len() ==> is_alphanumeric(#[trigger] r@[i]),
{
    rand::Rng::sample_iter(rand::rng(), &rand::distr::Alphanumeric)
        .take(count)
        .map(char::from)
        .collect()
}

/// A password. It has no `Debug`, so that no log shows it by accident.
pub struct Password {
    /// The secret itself.
    pub secret: String,
}

impl Password {
    /// The secret in the clear.
    pub fn expose_secret(&self) -> (r: &String)
        ensures
            *r == self.secret,
    {
        &self.secret
    }
}

impl Clone for Password {
    fn clone(&self) -> (r: Self)
        ensures
            r == *self,
    {
        Password { secret: self.secret.clone() }
    }
}

/// How to connect an account.
pub struct ConnectionInfo {
    /// The address, with or without a resource.
    pub jid: String,
    /// The host to connect to, where it is not to be looked up.
    pub server: Option<String>,
    /// The port to connect to.
    pub port: Option<u16>,
    /// Whether to connect as soon as the client starts.
    pub autoconnect: bool,
    /// The password, where it is known.
    pub password: Option<Password>,
}

impl Clone for ConnectionInfo {
    fn clone(&self) -> (r: Self)
        ensures
            r == *self,
    {
        ConnectionInfo {
            jid: self.jid.clone(),
            server: clone_text(&self.server),
            port: self.port,
            autoconnect: self.autoconnect,
            password: match &self.password {
                Some(password) => Some(password.clone()),
                None => None,
            },
        }
    }
}

} // verus!
