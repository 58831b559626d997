//! What the client tells of its capabilities.
use crate::account::text_view;
use crate::presence::{
    sendable, Presence, PresencePayload, PresencePayloadView, PresenceView,
};
use vstd::prelude::*;
use xmpp_parsers::data_forms::{DataForm, DataFormType, Field, FieldType};
use xmpp_parsers::disco::{DiscoInfoResult, Feature, Identity as XmppIdentity};

verus! {

/// What kind of program the client is.
#[derive(Debug, Clone)]
pub struct Identity {
    /// The category.
    pub category: String,
    /// The type within the category.
    pub type_: String,
    /// The language of the name.
    pub lang: Option<String>,
    /// The name.
    pub name: Option<String>,
}

/// What kind of program the client is.
pub struct IdentityView {
    /// The category.
    pub category: Seq<char>,
    /// The type within the category.
    pub type_: Seq<char>,
    /// The language of the name.
    pub lang: Option<Seq<char>>,
    /// The name.
    pub name: Option<Seq<char>>,
}

impl View for Identity {
    type V = IdentityView;

    open spec fn view(&self) -> IdentityView {
        IdentityView {
            category: self.category@,
            type_: self.type_@,
            lang: text_view(self.lang),
            name: text_view(self.name),
        }
    }
}

/// One field of a form.
#[derive(Debug, Clone)]
pub struct FormField {
    /// The name of the field.
    pub var: Option<String>,
    /// Its values.
    pub values: Vec<String>,
}

/// One field of a form.
pub struct FormFieldView {
    /// The name of the field.
    pub var: Option<Seq<char>>,
    /// Its values.
    pub values: Seq<Seq<char>>,
}

impl View for FormField {
    type V = FormFieldView;

    open spec fn view(&self) -> FormFieldView {
        FormFieldView {
            var: text_view(self.var),
            values: self.values@.map_values(|value: String| value@),
        }
    }
}

/// A form that tells more of the client.
#[derive(Debug, Clone)]
pub struct Form {
    /// What kind of form it is.
    pub form_type: Option<String>,
    /// The fields.
    pub fields: Vec<FormField>,
}

/// A form that tells more of the client.
pub struct FormView {
    /// What kind of form it is.
    pub form_type: Option<Seq<char>>,
    /// The fields.
    pub fields: Seq<FormFieldView>,
}

impl View for Form {
    type V = FormView;

    open spec fn view(&self) -> FormView {
        FormView {
            form_type: text_view(self.form_type),
            fields: self.fields@.map_values(|field: FormField| field@),
        }
    }
}

/// What the client is and can do.
#[derive(Debug, Clone)]
pub struct DiscoInfo {
    /// What kinds of program it is.
    pub identities: Vec<Identity>,
    /// The features that it supports.
    pub features: Vec<String>,
    /// What it tells besides.
    pub extensions: Vec<Form>,
}

/// What the client is and can do.
pub struct DiscoInfoView {
    /// What kinds of program it is.
    pub identities: Seq<IdentityView>,
    /// The features that it supports.
    pub features: Seq<Seq<char>>,
    /// What it tells besides.
    pub extensions: Seq<FormView>,
}

impl View for DiscoInfo {
    type V = DiscoInfoView;

    open spec fn view(&self) -> DiscoInfoView {
        DiscoInfoView {
            identities: self.identities@.map_values(|identity: Identity| identity@),
            features: self.features@.map_values(|feature: String| feature@),
            extensions: self.extensions@.map_values(|form: Form| form@),
        }
    }
}

/// The bytes that stand for the capabilities and are hashed.
pub uninterp spec fn caps_bytes(info: DiscoInfoView) -> Seq<u8>;

/// Calls `xmpp_parsers::caps::compute_disco` on the same identities, features and forms. The result
/// depends on them alone.
#[verifier::external_body]
fn compute_disco(info: &DiscoInfo) -> (r: Vec<u8>)
    ensures
        r@ == caps_bytes(info@),
{
    let info = info.clone();
    let identities = info.identities.into_iter().map(|i| XmppIdentity {
        category: i.category, type_: i.type_, lang: i.lang, name: i.name,
    }).collect();
    let features = info.features.into_iter().map(|var| Feature { var }).collect();
    let extensions = info.extensions.into_iter().map(|form| DataForm {
        type_: DataFormType::Result_, form_type: form.form_type, title: None, instructions: None,
        fields: form.fields.into_iter().map(|f| Field {
            var: f.var, values: f.values, ..Field::new("", FieldType::TextSingle)
        }).collect(),
    }).collect();
    let info = DiscoInfoResult { node: None, identities, features, extensions };
    xmpp_parsers::caps::compute_disco(&info)
}

/// The hash of some bytes under the function with the given name, or the reason why there is none.
pub uninterp spec fn caps_hash(bytes: Seq<u8>, algo: Seq<char>) -> Result<Seq<u8>, Seq<char>>;

/// Calls `xmpp_parsers::caps::hash_caps` with the hash function that `xmpp_parsers::hashes::Algo`
/// reads from the name, and hands out the hash, or the text of the error. The result depends on the
/// bytes and the name alone; there is always a hash under the name `blake2b-512`.
#[verifier::external_body]
fn hash_caps(bytes: &Vec<u8>, algo: &str) -> (r: Result<Vec<u8>, String>)
    ensures
        match r {
            Ok(hash) => caps_hash(bytes@, algo@) == Ok::<Seq<u8>, Seq<char>>(hash@),
            Err(reason) => caps_hash(bytes@, algo@) == Err::<Seq<u8>, Seq<char>>(reason@),
        },
        algo@ == "blake2b-512"@ ==> r is Ok,
{
    let algo = algo.parse().map_err(|error: xmpp_parsers::Error| error.to_string())?;
    Ok(xmpp_parsers::caps::hash_caps(bytes.as_slice(), algo)?.hash)
}

/// The presence that tells others that the client is there and what it can do, given the hash of
/// its capabilities.
pub open spec fn announcement(hash: Seq<u8>) -> PresenceView {
    PresenceView {
        type_: None,
        from: None,
        to: None,
        show: Some("chat"@),
        payloads: seq![
            PresencePayloadView::Caps { node: "apart\u{e9}"@, algo: "blake2b-512"@, hash },
        ],
    }
}

impl DiscoInfo {
    /// The hash of the capabilities.
    pub fn verification_hash(&self) -> (r: Vec<u8>)
        ensures
            caps_hash(caps_bytes(self@), "blake2b-512"@) == Ok::<Seq<u8>, Seq<char>>(r@),
    {
        match hash_caps(&compute_disco(self), "blake2b-512") {
            Ok(hash) => hash,
            Err(_) => Vec::new(),
        }
    }
}

/// The presence that tells others that the client is there and what it can do. It can always be
/// sent.
pub fn announce(hash: Vec<u8>) -> (r: Presence)
    ensures
        r@ == announcement(hash@),
        sendable(r@),
{
    let ghost bytes = hash@;
    let mut payloads: Vec<PresencePayload> = Vec::new();
    payloads.push(
        PresencePayload::Caps {
            node: "apart\u{e9}".to_owned(),
            algo: "blake2b-512".to_owned(),
            hash,
        },
    );
    let r = Presence {
        type_: None,
        from: None,
        to: None,
        show: Some("chat".to_owned()),
        payloads,
    };
    proof {
        reveal_strlit("apart\u{e9}");
        reveal_strlit("blake2b-512");
        assert(r@.payloads =~= announcement(bytes).payloads);
    }
    r
}

} // verus!
