//! Identity and authorization.
//!
//! A principal is established once, at the edge, and every consumer reads the
//! same one. An agent never holds more authority than the caller who started it:
//! its scopes are *intersected* with the caller's, never unioned.

use crate::json::{Json, JsonView, Members, value_content};
use crate::manifest::{AuthConfig, JwtConfig};
use crate::table::Table;
use crate::text::{cat2, cat3, cat4, holds, quoted, same, sorted_unique, split_words, strip_prefix, texts, to_lower, trim};
use vstd::prelude::*;

verus! {

/// How an identity was established.
#[derive(Debug, Clone, Copy, PartialEq, Eq, Structural)]
pub enum PrincipalKind {
    Anonymous,
    ApiKey,
    Jwt,
    /// An agent acting on behalf of the principal that started its run.
    Agent,
}

/// Who is making a request.
#[derive(Debug)]
pub struct Principal {
    /// Stable identifier. `anonymous` when no credential was presented.
    pub id: String,
    /// How the identity was established, for the audit log.
    pub kind: PrincipalKind,
    pub scopes: Vec<String>,
    /// Additional claims, surfaced to handlers and templates.
    pub claims: Members,
}

/// Whether a list of scopes grants a scope: by name, or by the wildcard `*`, which
/// is spelled exactly so.
pub open spec fn grants(scopes: Seq<Seq<char>>, scope: Seq<char>) -> bool {
    scopes.contains(scope) || scopes.contains("*"@)
}

/// The scopes of a list that another list grants, in order.
pub open spec fn granted_of(wanted: Seq<Seq<char>>, scopes: Seq<Seq<char>>) -> Seq<Seq<char>> {
    wanted.filter(|s: Seq<char>| grants(scopes, s))
}

/// The scopes of a list that another list does not grant, in order.
pub open spec fn denied_of(wanted: Seq<Seq<char>>, scopes: Seq<Seq<char>>) -> Seq<Seq<char>> {
    wanted.filter(|s: Seq<char>| !grants(scopes, s))
}

/// The scopes of a delegate that asks for `wanted` on behalf of a holder of
/// `scopes`: what it asks for and the holder has; all of it where it asks for
/// nothing.
pub open spec fn delegated(wanted: Seq<Seq<char>>, scopes: Seq<Seq<char>>) -> Seq<Seq<char>> {
    if wanted.len() == 0 {
        scopes
    } else {
        granted_of(wanted, scopes)
    }
}

/// What a [`Principal`] holds.
#[verifier::ext_equal]
pub struct PrincipalView {
    pub id: Seq<char>,
    pub kind: PrincipalKind,
    pub scopes: Seq<Seq<char>>,
    pub claims: Map<Seq<char>, JsonView>,
}

impl View for Principal {
    type V = PrincipalView;

    open spec fn view(&self) -> PrincipalView {
        PrincipalView { id: self.id@, kind: self.kind, scopes: texts(self.scopes@), claims: self.claims@ }
    }
}

/// The principal of a delegate.
pub open spec fn delegate_view(p: PrincipalView, name: Seq<char>, wanted: Seq<Seq<char>>) -> PrincipalView {
    PrincipalView {
        id: "agent:"@ + name + "#"@ + p.id,
        kind: PrincipalKind::Agent,
        scopes: delegated(wanted, p.scopes),
        claims: p.claims.insert("agent"@, JsonView::Str(name)).insert("on_behalf_of"@, JsonView::Str(p.id)),
    }
}

/// Whether a principal may be one that everybody is who presents no credential, or an
/// agent that acts for it.
pub open spec fn is_shared_identity(p: PrincipalView) -> bool {
    p.kind == PrincipalKind::Anonymous || (p.kind == PrincipalKind::Agent && "#anonymous"@.is_suffix_of(p.id))
}

/// Whatever acts for the anonymous caller, through however many agents, shares its
/// identity.
pub proof fn law_acting_for_the_anonymous_caller_is_shared(p: PrincipalView, name: Seq<char>, wanted: Seq<Seq<char>>)
    requires
        p.id == "anonymous"@ || (p.kind == PrincipalKind::Agent && is_shared_identity(p)),
    ensures
        is_shared_identity(delegate_view(p, name, wanted)),
{
    reveal_strlit("#anonymous");
    reveal_strlit("anonymous");
    reveal_strlit("#");
    let d = delegate_view(p, name, wanted).id;
    let mark = "#anonymous"@;
    if p.id == "anonymous"@ {
        assert(mark =~= "#"@ + "anonymous"@);
        assert(d =~= ("agent:"@ + name) + mark);
    } else {
        let n = p.id.len() - mark.len();
        assert(p.id.subrange(n, p.id.len() as int) =~= mark);
        assert(d.subrange(d.len() - mark.len(), d.len() as int) =~= mark);
    }
}

impl Principal {
    /// A principal of its own with the same content.
    pub fn copy(&self) -> (r: Principal)
        ensures
            r@ == self@,
    {
        let scopes = crate::text::copy_texts(&self.scopes);
        Principal { id: self.id.clone(), kind: self.kind, scopes, claims: self.claims.copy() }
    }

    /// The caller that presented no credential.
    pub fn anonymous() -> (r: Principal)
        ensures
            r.id@ == "anonymous"@,
            r.kind == PrincipalKind::Anonymous,
            r.scopes@.len() == 0,
            r.claims@ == Map::<Seq<char>, JsonView>::empty(),
    {
        Principal {
            id: "anonymous".to_owned(),
            kind: PrincipalKind::Anonymous,
            scopes: Vec::new(),
            claims: Members::new(),
        }
    }

    pub fn is_anonymous(&self) -> (r: bool)
        ensures
            r == (self.kind == PrincipalKind::Anonymous),
    {
        self.kind == PrincipalKind::Anonymous
    }

    /// Whether the principal may be one that everybody is who presents no credential,
    /// or an agent that acts for it.
    pub fn is_shared(&self) -> (r: bool)
        ensures
            r == is_shared_identity(self@),
    {
        self.is_anonymous() || (self.kind == PrincipalKind::Agent && crate::text::ends_with(
            self.id.as_str(),
            "#anonymous",
        ))
    }

    /// Whether the principal holds a scope. A wildcard is spelled exactly `*`;
    /// there is no prefix matching.
    pub fn has_scope(&self, scope: &str) -> (r: bool)
        ensures
            r == grants(texts(self.scopes@), scope@),
    {
        holds(&self.scopes, scope) || holds(&self.scopes, "*")
    }

    /// The required scopes that the principal does not hold, in order.
    pub fn missing_scopes(&self, required: &[String]) -> (r: Vec<String>)
        ensures
            texts(r@) == denied_of(texts(required@), texts(self.scopes@)),
    {
        let mut out: Vec<String> = Vec::new();
        let mut i: usize = 0;
        let ghost all = texts(required@);
        let ghost keep = |s: Seq<char>| !grants(texts(self.scopes@), s);
        assert(texts(out@) =~= all.take(0).filter(keep)) by {
            reveal(Seq::filter);
        }
        while i < required.len()
            invariant
                i <= required@.len(),
                all == texts(required@),
                keep == (|s: Seq<char>| !grants(texts(self.scopes@), s)),
                texts(out@) == all.take(i as int).filter(keep),
            decreases required.len() - i,
        {
            proof {
                assert(all[i as int] == required@[i as int]@);
                all.take(i as int).lemma_filter_push(all[i as int], keep);
                assert(all.take(i + 1) =~= all.take(i as int).push(all[i as int]));
            }
            if !self.has_scope(required[i].as_str()) {
                proof {
                    crate::text::lemma_texts_push(out@, required@[i as int]);
                }
                out.push(required[i].clone());
            }
            i = i + 1;
        }
        assert(all.take(all.len() as int) =~= all);
        out
    }

    /// The scopes of a list that the principal holds, in order.
    pub fn granted(&self, wanted: &[String]) -> (r: Vec<String>)
        ensures
            texts(r@) == granted_of(texts(wanted@), texts(self.scopes@)),
    {
        let mut out: Vec<String> = Vec::new();
        let mut i: usize = 0;
        let ghost all = texts(wanted@);
        let ghost keep = |s: Seq<char>| grants(texts(self.scopes@), s);
        assert(texts(out@) =~= all.take(0).filter(keep)) by {
            reveal(Seq::filter);
        }
        while i < wanted.len()
            invariant
                i <= wanted@.len(),
                all == texts(wanted@),
                keep == (|s: Seq<char>| grants(texts(self.scopes@), s)),
                texts(out@) == all.take(i as int).filter(keep),
            decreases wanted.len() - i,
        {
            proof {
                assert(all[i as int] == wanted@[i as int]@);
                all.take(i as int).lemma_filter_push(all[i as int], keep);
                assert(all.take(i + 1) =~= all.take(i as int).push(all[i as int]));
            }
            if self.has_scope(wanted[i].as_str()) {
                proof {
                    crate::text::lemma_texts_push(out@, wanted@[i as int]);
                }
                out.push(wanted[i].clone());
            }
            i = i + 1;
        }
        assert(all.take(all.len() as int) =~= all);
        out
    }

    /// The principal an agent run executes as.
    ///
    /// Its scopes are a *subset* of this principal's: a scope that the agent
    /// declares and its caller does not hold is dropped rather than granted.
    pub fn delegate_to_agent(&self, agent_name: &str, agent_scopes: &[String]) -> (r: Principal)
        ensures
            r@ == delegate_view(self@, agent_name@, texts(agent_scopes@)),
    {
        let scopes = if agent_scopes.len() == 0 {
            crate::text::copy_texts(&self.scopes)
        } else {
            self.granted(agent_scopes)
        };
        let mut claims = self.claims.copy();
        claims.put("agent", Json::str(agent_name));
        claims.put("on_behalf_of", Json::str(self.id.as_str()));
        Principal {
            id: cat4("agent:", agent_name, "#", self.id.as_str()),
            kind: PrincipalKind::Agent,
            scopes,
            claims,
        }
    }
}

/// Whom a request and all that it invokes is made for: the outermost caller, however many
/// agents deep the call is. It is made from that caller and from nobody else.
#[derive(Debug)]
pub struct Root {
    id: String,
    shared: bool,
}

/// What a [`Root`] holds.
#[verifier::ext_equal]
pub struct RootView {
    pub id: Seq<char>,
    /// Whether others may have the same identity.
    pub shared: bool,
}

impl View for Root {
    type V = RootView;

    closed spec fn view(&self) -> RootView {
        RootView { id: self.id@, shared: self.shared }
    }
}

/// The root of all that a caller asks for.
pub open spec fn root_of(caller: PrincipalView) -> RootView {
    RootView { id: caller.id, shared: is_shared_identity(caller) }
}

/// Whether a principal is a root, or an agent that acts for it.
pub open spec fn acts_for(p: PrincipalView, root: RootView) -> bool {
    p.id == root.id || (p.kind == PrincipalKind::Agent && ("#"@ + root.id).is_suffix_of(p.id))
}

/// The identity whose data a principal may reach under a root: the root's, if the principal
/// acts for it, and none where the identity is shared, whose data is not pooled.
pub open spec fn reachable_identity(p: PrincipalView, root: RootView) -> Option<Seq<char>> {
    if !root.shared && acts_for(p, root) {
        Some(root.id)
    } else {
        None
    }
}

impl Root {
    /// The root of all that a caller asks for.
    pub fn of(caller: &Principal) -> (r: Root)
        ensures
            r@ == root_of(caller@),
    {
        Root { id: caller.id.clone(), shared: caller.is_shared() }
    }

    pub fn id(&self) -> (r: &str)
        ensures
            r@ == self@.id,
    {
        self.id.as_str()
    }

    /// The identity whose data a principal may reach under this root.
    pub fn identity_for(&self, p: &Principal) -> (r: Option<&str>)
        ensures
            match r {
                Some(id) => reachable_identity(p@, self@) == Some(id@),
                None => reachable_identity(p@, self@) is None,
            },
    {
        let mark = crate::text::cat2("#", self.id.as_str());
        let acts = same(p.id.as_str(), self.id.as_str()) || (p.kind == PrincipalKind::Agent && crate::text::ends_with(
            p.id.as_str(),
            mark.as_str(),
        ));
        if !self.shared && acts {
            Some(self.id.as_str())
        } else {
            None
        }
    }
}

/// Delegation keeps the root: whatever an agent is called and whatever it is granted, it
/// acts for whoever its principal acts for.
pub proof fn law_delegation_keeps_the_root(p: PrincipalView, name: Seq<char>, wanted: Seq<Seq<char>>, root: RootView)
    requires
        acts_for(p, root),
    ensures
        acts_for(delegate_view(p, name, wanted), root),
        reachable_identity(delegate_view(p, name, wanted), root) == reachable_identity(p, root),
{
    let d = delegate_view(p, name, wanted).id;
    let mark = "#"@ + root.id;
    if p.id == root.id {
        assert(d =~= ("agent:"@ + name) + mark);
        assert(d.subrange(d.len() - mark.len(), d.len() as int) =~= mark);
    } else {
        assert(p.id.subrange(p.id.len() - mark.len(), p.id.len() as int) =~= mark);
        assert(d.subrange(d.len() - mark.len(), d.len() as int) =~= mark);
    }
}

/// A caller who shares their identity with nobody reaches their own data, and so do the
/// agents that they call, and the agents that those call.
pub proof fn law_agents_reach_the_callers_own_data(
    caller: PrincipalView,
    first: Seq<char>,
    second: Seq<char>,
    wanted: Seq<Seq<char>>,
)
    requires
        !is_shared_identity(caller),
    ensures
        reachable_identity(caller, root_of(caller)) == Some(caller.id),
        reachable_identity(delegate_view(caller, first, wanted), root_of(caller)) == Some(caller.id),
        reachable_identity(delegate_view(delegate_view(caller, first, wanted), second, wanted), root_of(caller)) == Some(
            caller.id,
        ),
{
    law_delegation_keeps_the_root(caller, first, wanted, root_of(caller));
    law_delegation_keeps_the_root(delegate_view(caller, first, wanted), second, wanted, root_of(caller));
}

/// Nobody reaches data under a root that they share, nor under one that they do not act
/// for.
pub proof fn law_shared_data_is_not_pooled(p: PrincipalView, caller: PrincipalView)
    requires
        is_shared_identity(caller) || !acts_for(p, root_of(caller)),
    ensures
        reachable_identity(p, root_of(caller)) is None,
{
}

/// A delegate holds no scope that its principal does not hold.
pub proof fn law_delegation_never_gains_authority(wanted: Seq<Seq<char>>, scopes: Seq<Seq<char>>, scope: Seq<char>)
    requires
        grants(delegated(wanted, scopes), scope),
    ensures
        grants(scopes, scope),
{
    if wanted.len() > 0 {
        let keep = |s: Seq<char>| grants(scopes, s);
        let got = wanted.filter(keep);
        assert forall|i: int| 0 <= i < got.len() implies grants(scopes, #[trigger] got[i]) by {
            wanted.lemma_filter_pred(keep, i);
        }
    }
}

/// A delegate of a delegate holds no scope that the first principal does not hold.
pub proof fn law_delegation_chains(
    first: Seq<Seq<char>>,
    second: Seq<Seq<char>>,
    scopes: Seq<Seq<char>>,
    scope: Seq<char>,
)
    requires
        grants(delegated(second, delegated(first, scopes)), scope),
    ensures
        grants(scopes, scope),
{
    law_delegation_never_gains_authority(second, delegated(first, scopes), scope);
    law_delegation_never_gains_authority(first, scopes, scope);
}

/// A delegate of a principal without scopes has none.
pub proof fn law_delegation_of_nothing_is_nothing(wanted: Seq<Seq<char>>)
    ensures
        delegated(wanted, Seq::empty()).len() == 0,
{
    let none = Seq::<Seq<char>>::empty();
    let keep = |s: Seq<char>| grants(none, s);
    let got = wanted.filter(keep);
    if wanted.len() > 0 && got.len() > 0 {
        wanted.lemma_filter_pred(keep, 0);
        assert(false);
    }
}

/// Nothing is missing exactly where every required scope is granted.
pub proof fn law_nothing_missing_iff_all_granted(wanted: Seq<Seq<char>>, scopes: Seq<Seq<char>>)
    ensures
        denied_of(wanted, scopes).len() == 0 <==> forall|i: int|
            0 <= i < wanted.len() ==> grants(scopes, #[trigger] wanted[i]),
{
    let keep = |s: Seq<char>| !grants(scopes, s);
    let got = wanted.filter(keep);
    if got.len() == 0 {
        assert forall|i: int| 0 <= i < wanted.len() implies grants(scopes, #[trigger] wanted[i]) by {
            if !grants(scopes, wanted[i]) {
                wanted.lemma_filter_contains(keep, i);
                assert(got.contains(wanted[i]));
            }
        }
    } else {
        wanted.lemma_filter_pred(keep, 0);
        assert(wanted.contains(got[0])) by {
            wanted.lemma_filter_contains_rev(keep, got[0]);
        }
    }
}

/// The SHA-256 digest of a byte sequence, as sha2 computes it.
pub uninterp spec fn sha256_digest(bytes: Seq<u8>) -> Seq<u8>;

/// `sha2::Sha256` over one input: the digest of the bytes, which is left to the
/// name.
#[verifier::external_body]
pub(crate) fn sha256(bytes: &[u8]) -> (r: [u8; 32])
    ensures
        r@ == sha256_digest(bytes@),
{
    <sha2::Sha256 as sha2::Digest>::digest(bytes).into()
}

/// `subtle::ConstantTimeEq::ct_eq` on two digests: whether they are equal, in a
/// time that does not depend on where they differ.
#[verifier::external_body]
fn digests_equal(a: &[u8; 32], b: &[u8; 32]) -> (r: bool)
    ensures
        r == (a@ == b@),
{
    subtle::ConstantTimeEq::ct_eq(a.as_slice(), b.as_slice()).into()
}

/// The unpadded URL-safe base64 text of a byte sequence.
pub uninterp spec fn base64_url(bytes: Seq<u8>) -> Seq<char>;

/// `base64`'s `URL_SAFE_NO_PAD.encode`: four characters for every three bytes, and
/// no padding for the rest, so that 32 bytes make 43 characters. Which characters
/// is left to the name.
#[verifier::external_body]
fn encode_base64_url(bytes: &[u8]) -> (r: String)
    requires
        bytes@.len() == 32,
    ensures
        r@ == base64_url(bytes@),
        r@.len() == 43,
{
    base64::Engine::encode(&base64::engine::general_purpose::URL_SAFE_NO_PAD, bytes)
}

/// `uuid::Uuid::new_v4`: sixteen bytes that differ from call to call. Nothing is
/// claimed of them.
#[verifier::external_body]
fn random_bytes() -> (r: [u8; 16])
{
    uuid::Uuid::new_v4().into_bytes()
}

/// The API key that two runs of random bytes make.
pub fn api_key_text(first: &[u8; 16], second: &[u8; 16]) -> (r: String)
    ensures
        r@ == "pyl_"@ + base64_url(first@ + second@),
        r@.len() == 47,
{
    let mut bytes: Vec<u8> = Vec::new();
    let mut i: usize = 0;
    while i < 16
        invariant
            i <= 16,
            bytes@ == first@.take(i as int),
        decreases 16 - i,
    {
        bytes.push(first[i]);
        assert(first@.take(i + 1) =~= first@.take(i as int).push(first@[i as int]));
        i = i + 1;
    }
    assert(first@.take(16) =~= first@);
    let mut i: usize = 0;
    assert(first@ + second@.take(0) =~= first@);
    while i < 16
        invariant
            i <= 16,
            bytes@ == first@ + second@.take(i as int),
        decreases 16 - i,
    {
        bytes.push(second[i]);
        assert(second@.take(i + 1) =~= second@.take(i as int).push(second@[i as int]));
        i = i + 1;
    }
    assert(second@.take(16) =~= second@);
    proof {
        reveal_strlit("pyl_");
    }
    cat2("pyl_", encode_base64_url(&bytes).as_str())
}

/// Generate an API key suitable for handing to a client: a prefix and the base64
/// text of 32 random bytes.
pub fn generate_api_key() -> (r: String)
    ensures
        exists|bytes: Seq<u8>| bytes.len() == 32 && r@ == "pyl_"@ + #[trigger] base64_url(bytes),
        r@.len() == 47,
{
    let first = random_bytes();
    let second = random_bytes();
    let r = api_key_text(&first, &second);
    assert((first@ + second@).len() == 32);
    r
}

/// Why a credential was refused.
#[derive(Debug)]
pub enum AuthError {
    Invalid(String),
    Expired(String),
    Malformed(String),
}

/// What an [`AuthError`] says.
pub enum AuthErrorView {
    Invalid(Seq<char>),
    Expired(Seq<char>),
    Malformed(Seq<char>),
}

impl View for AuthError {
    type V = AuthErrorView;

    open spec fn view(&self) -> AuthErrorView {
        match self {
            AuthError::Invalid(m) => AuthErrorView::Invalid(m@),
            AuthError::Expired(m) => AuthErrorView::Expired(m@),
            AuthError::Malformed(m) => AuthErrorView::Malformed(m@),
        }
    }
}

impl AuthError {
    /// Every refused credential is answered with 401.
    pub fn status(&self) -> (r: u16)
        ensures
            r == 401,
    {
        401
    }

    /// What to tell the client.
    pub fn message(&self) -> (r: &str)
        ensures
            r@ == (match self@ {
                AuthErrorView::Invalid(m) => m,
                AuthErrorView::Expired(m) => m,
                AuthErrorView::Malformed(m) => m,
            }),
    {
        match self {
            AuthError::Invalid(m) => m.as_str(),
            AuthError::Expired(m) => m.as_str(),
            AuthError::Malformed(m) => m.as_str(),
        }
    }
}

/// A signature algorithm of jsonwebtoken.
#[verifier::external_type_specification]
#[verifier::external_body]
pub struct ExAlgorithm(jsonwebtoken::Algorithm);

/// A key that jsonwebtoken checks signatures with.
#[verifier::external_type_specification]
#[verifier::external_body]
pub struct ExDecodingKey(jsonwebtoken::DecodingKey);

/// What jsonwebtoken asks of a token.
#[verifier::external_type_specification]
#[verifier::external_body]
pub struct ExValidation(jsonwebtoken::Validation);

/// The name of an algorithm.
pub uninterp spec fn algorithm_name(a: jsonwebtoken::Algorithm) -> Seq<char>;

/// Where a key comes from.
pub enum KeySource {
    Secret(Seq<u8>),
    RsaPem(Seq<u8>),
}

/// What a key was made from.
pub uninterp spec fn key_source(k: jsonwebtoken::DecodingKey) -> KeySource;

/// What a token has to satisfy, besides its signature.
pub struct TokenRules {
    pub algorithm: Seq<char>,
    /// Whether a token without an expiry is refused.
    pub requires_exp: bool,
    pub validate_exp: bool,
    /// Whether a token that names an audience must name one that is accepted.
    pub validate_aud: bool,
    pub leeway: u64,
    pub audience: Option<Seq<char>>,
    pub issuer: Option<Seq<char>>,
}

/// The rules that a `Validation` holds.
pub uninterp spec fn validation_rules(v: jsonwebtoken::Validation) -> TokenRules;

/// What `DecodingKey::from_rsa_pem` reports of bytes that hold no RSA key in PEM.
pub uninterp spec fn rsa_pem_fault(pem: Seq<u8>) -> Option<Seq<char>>;

/// The algorithms that jsonwebtoken knows by name.
pub open spec fn known_algorithm(name: Seq<char>) -> bool {
    hmac_algorithm(name) || rsa_algorithm(name) || name == "ES256"@ || name == "ES384"@ || name == "PS256"@ || name
        == "PS384"@ || name == "PS512"@ || name == "EdDSA"@
}

/// The algorithms that sign with a shared secret.
pub open spec fn hmac_algorithm(name: Seq<char>) -> bool {
    name == "HS256"@ || name == "HS384"@ || name == "HS512"@
}

/// The algorithms that sign with an RSA key by the older padding.
pub open spec fn rsa_algorithm(name: Seq<char>) -> bool {
    name == "RS256"@ || name == "RS384"@ || name == "RS512"@
}

/// `<jsonwebtoken::Algorithm as FromStr>::from_str`: the algorithm of a name, which
/// must be one of those it lists.
#[verifier::external_body]
fn parse_algorithm(name: &str) -> (r: Option<jsonwebtoken::Algorithm>)
    ensures
        r is Some <==> known_algorithm(name@),
        r matches Some(a) ==> algorithm_name(a) == name@,
{
    name.parse().ok()
}

/// `DecodingKey::from_secret`: a key that holds the secret.
#[verifier::external_body]
fn key_from_secret(secret: &[u8]) -> (r: jsonwebtoken::DecodingKey)
    ensures
        key_source(r) == KeySource::Secret(secret@),
{
    jsonwebtoken::DecodingKey::from_secret(secret)
}

/// `DecodingKey::from_rsa_pem`: a key that holds the RSA key of a PEM text, or the
/// text of an error. On which bytes it fails is left to the name.
#[verifier::external_body]
fn key_from_rsa_pem(pem: &[u8]) -> (r: Result<jsonwebtoken::DecodingKey, String>)
    ensures
        match r {
            Ok(k) => rsa_pem_fault(pem@) is None && key_source(k) == KeySource::RsaPem(pem@),
            Err(e) => rsa_pem_fault(pem@) == Some(e@),
        },
{
    jsonwebtoken::DecodingKey::from_rsa_pem(pem).map_err(|e| e.to_string())
}

/// `Validation::new`: the one algorithm, `exp` required and checked, a leeway of a minute,
/// the audience checked, none accepted, and no issuer.
#[verifier::external_body]
fn new_validation(a: jsonwebtoken::Algorithm) -> (r: jsonwebtoken::Validation)
    ensures
        validation_rules(r) == (TokenRules {
            algorithm: algorithm_name(a),
            requires_exp: true,
            validate_exp: true,
            validate_aud: true,
            leeway: 60,
            audience: None,
            issuer: None,
        }),
{
    jsonwebtoken::Validation::new(a)
}

/// Sets the `validate_aud` field of a `Validation`.
#[verifier::external_body]
fn set_validate_aud(v: &mut jsonwebtoken::Validation, on: bool)
    ensures
        validation_rules(*final(v)) == (TokenRules { validate_aud: on, ..validation_rules(*old(v)) }),
{
    v.validate_aud = on;
}

/// Empties the `required_spec_claims` field of a `Validation`, so that no claim is
/// required.
#[verifier::external_body]
fn require_nothing(v: &mut jsonwebtoken::Validation)
    ensures
        validation_rules(*final(v)) == (TokenRules { requires_exp: false, ..validation_rules(*old(v)) }),
{
    v.required_spec_claims.clear();
}

/// Sets the `validate_exp` field of a `Validation`.
#[verifier::external_body]
fn set_validate_exp(v: &mut jsonwebtoken::Validation, on: bool)
    ensures
        validation_rules(*final(v)) == (TokenRules { validate_exp: on, ..validation_rules(*old(v)) }),
{
    v.validate_exp = on;
}

/// Sets the `leeway` field of a `Validation`, in seconds.
#[verifier::external_body]
fn set_leeway(v: &mut jsonwebtoken::Validation, secs: u64)
    ensures
        validation_rules(*final(v)) == (TokenRules { leeway: secs, ..validation_rules(*old(v)) }),
{
    v.leeway = secs;
}

/// `Validation::set_audience` with one member, which becomes the only one accepted.
#[verifier::external_body]
fn set_audience(v: &mut jsonwebtoken::Validation, audience: &str)
    ensures
        validation_rules(*final(v)) == (TokenRules {
            audience: Some(audience@),
            ..validation_rules(*old(v))
        }),
{
    v.set_audience(&[audience]);
}

/// `Validation::set_issuer` with one member, which becomes the only one accepted.
#[verifier::external_body]
fn set_issuer(v: &mut jsonwebtoken::Validation, issuer: &str)
    ensures
        validation_rules(*final(v)) == (TokenRules { issuer: Some(issuer@), ..validation_rules(*old(v)) }),
{
    v.set_issuer(&[issuer]);
}

/// Why a token was not accepted.
#[derive(Debug)]
pub enum TokenFault {
    Expired,
    Rejected(String),
}

/// The longest leeway that a clock can take, in seconds: about what had passed by the year
/// 2001 of the time that systems count.
pub const MAX_LEEWAY_SECS: u64 = 1_000_000_000;

/// What `jsonwebtoken::decode` makes of a token at a time: its claims, or, where there
/// are none, the text of the error, or nothing where the token has expired.
pub uninterp spec fn token_reading(
    token: Seq<char>,
    key: KeySource,
    rules: TokenRules,
    now: int,
) -> Result<JsonView, Option<Seq<char>>>;

/// What a reply of the token check says.
pub open spec fn reading_of(r: Result<serde_json::Value, TokenFault>) -> Result<JsonView, Option<Seq<char>>> {
    match r {
        Ok(v) => Ok(value_content(v)),
        Err(TokenFault::Expired) => Err(None),
        Err(TokenFault::Rejected(t)) => Err(Some(t@)),
    }
}

/// `jsonwebtoken::decode` into a JSON value, in which a claim that is given twice stands as
/// it was given last. What it answers follows from the token, the key, the rules and the
/// clock, which is some time; what it answers at which time is left to the name. Where it checks when a token expires, it subtracts the leeway from the
/// clock, so the leeway must be smaller.
#[verifier::external_body]
fn decode_token(token: &str, key: &jsonwebtoken::DecodingKey, rules: &jsonwebtoken::Validation) -> (r: Result<
    serde_json::Value,
    TokenFault,
>)
    requires
        validation_rules(*rules).validate_exp ==> validation_rules(*rules).leeway <= MAX_LEEWAY_SECS,
    ensures
        exists|now: int| #[trigger]
            token_reading(token@, key_source(*key), validation_rules(*rules), now) == reading_of(r),
{
    let decoded = jsonwebtoken::decode::<serde_json::Value>(token, key, rules);
    decoded.map(|t| t.claims).map_err(|e| match e.kind() {
        jsonwebtoken::errors::ErrorKind::ExpiredSignature => TokenFault::Expired,
        _ => TokenFault::Rejected(e.to_string()),
    })
}

/// Checks bearer tokens. Built once at boot.
pub struct JwtDecoder {
    key: jsonwebtoken::DecodingKey,
    /// What is asked of a token before its claims are read: its signature alone.
    signature_only: jsonwebtoken::Validation,
    validation: jsonwebtoken::Validation,
    leeway_secs: u64,
}

/// What is asked of a token before its claims are read: that it is signed, and how.
pub open spec fn signature_rules(algorithm: Seq<char>) -> TokenRules {
    TokenRules {
        algorithm,
        requires_exp: false,
        validate_exp: false,
        validate_aud: false,
        leeway: 60,
        audience: None,
        issuer: None,
    }
}

impl JwtDecoder {
    #[verifier::type_invariant]
    spec fn is_consistent(self) -> bool {
        &&& validation_rules(self.validation).leeway == self.leeway_secs
        &&& validation_rules(self.signature_only) == signature_rules(validation_rules(self.validation).algorithm)
    }

    /// What the key was made from.
    pub closed spec fn source(&self) -> KeySource {
        key_source(self.key)
    }

    /// What a token has to satisfy.
    pub closed spec fn rules(&self) -> TokenRules {
        validation_rules(self.validation)
    }

    spec fn asked(&self, fully: bool) -> TokenRules {
        if fully {
            self.rules()
        } else {
            signature_rules(self.rules().algorithm)
        }
    }

    /// Reads a token, by all its rules or by its signature alone.
    fn read(&self, token: &str, fully: bool) -> (r: Result<Json, TokenFault>)
        requires
            fully ==> self.rules().leeway <= MAX_LEEWAY_SECS,
        ensures
            exists|now: int| #[trigger]
                token_reading(token@, self.source(), self.asked(fully), now) == reply_reading(r),
    {
        proof {
            use_type_invariant(self);
        }
        let reply = if fully {
            decode_token(token, &self.key, &self.validation)
        } else {
            decode_token(token, &self.key, &self.signature_only)
        };
        let ghost said = reading_of(reply);
        let r = match reply {
            Ok(v) => Ok(crate::json::from_value(&v)),
            Err(e) => Err(e),
        };
        assert(reply_reading(r) == said);
        r
    }
}

/// What is wrong with a token configuration whose secret reads `secret`, if it is
/// set.
pub open spec fn jwt_fault(cfg: JwtConfig, secret: Option<Seq<char>>) -> Option<Seq<char>> {
    match secret {
        None => Some(
            "JWT is configured but "@ + cfg.secret_env@
                + " is not set; refusing to start with an unverifiable token path"@,
        ),
        Some(s) => {
            let bytes = vstd::utf8::encode_utf8(s);
            if bytes.len() < 32 {
                Some(cfg.secret_env@ + " must be at least 32 bytes; short HMAC secrets are brute-forceable"@)
            } else if !known_algorithm(cfg.algorithm@) {
                Some("unsupported JWT algorithm "@ + crate::text::debug_quoted(cfg.algorithm@))
            } else if hmac_algorithm(cfg.algorithm@) {
                None
            } else if rsa_algorithm(cfg.algorithm@) {
                match rsa_pem_fault(bytes) {
                    Some(e) => Some("invalid RSA public key in "@ + cfg.secret_env@ + ": "@ + e),
                    None => None,
                }
            } else {
                Some("unsupported JWT algorithm "@ + cfg.algorithm@)
            }
        },
    }
}

/// The key that a configuration and its secret give.
pub open spec fn secret_source(cfg: JwtConfig, secret: Seq<char>) -> KeySource {
    if hmac_algorithm(cfg.algorithm@) {
        KeySource::Secret(vstd::utf8::encode_utf8(secret))
    } else {
        KeySource::RsaPem(vstd::utf8::encode_utf8(secret))
    }
}

/// What a configuration asks of a token: always that it expires, and has not.
pub open spec fn rules_of(cfg: JwtConfig) -> TokenRules {
    TokenRules {
        algorithm: cfg.algorithm@,
        requires_exp: true,
        validate_exp: true,
        validate_aud: true,
        leeway: cfg.leeway_secs,
        audience: match cfg.audience {
            Some(a) => Some(a@),
            None => None,
        },
        issuer: match cfg.issuer {
            Some(i) => Some(i@),
            None => None,
        },
    }
}

/// No configuration lets a token in that does not say when it expires, or whose time is
/// not looked at.
pub proof fn law_tokens_must_expire(cfg: JwtConfig)
    ensures
        rules_of(cfg).requires_exp,
        rules_of(cfg).validate_exp,
{
}

/// Builds the token check from its configuration and the secret that the
/// environment holds.
pub fn build_jwt_decoder(cfg: &JwtConfig, secret: Option<&String>) -> (r: Result<JwtDecoder, String>)
    ensures
        match r {
            Ok(d) => {
                &&& jwt_fault(*cfg, text_of_secret(secret)) is None
                &&& d.source() == secret_source(*cfg, secret->0@)
                &&& d.rules() == rules_of(*cfg)
            },
            Err(e) => jwt_fault(*cfg, text_of_secret(secret)) == Some(e@),
        },
{
    let secret = match secret {
        Some(s) => s.as_str(),
        None => {
            return Err(
                cat3(
                    "JWT is configured but ",
                    cfg.secret_env.as_str(),
                    " is not set; refusing to start with an unverifiable token path",
                ),
            );
        },
    };
    let bytes = secret.as_bytes();
    if bytes.len() < 32 {
        return Err(
            cat2(
                cfg.secret_env.as_str(),
                " must be at least 32 bytes; short HMAC secrets are brute-forceable",
            ),
        );
    }
    let name = cfg.algorithm.as_str();
    let algorithm = match parse_algorithm(name) {
        Some(a) => a,
        None => {
            return Err(cat2("unsupported JWT algorithm ", quoted(name).as_str()));
        },
    };
    let key = if same(name, "HS256") || same(name, "HS384") || same(name, "HS512") {
        key_from_secret(bytes)
    } else if same(name, "RS256") || same(name, "RS384") || same(name, "RS512") {
        match key_from_rsa_pem(bytes) {
            Ok(k) => k,
            Err(e) => {
                return Err(cat4("invalid RSA public key in ", cfg.secret_env.as_str(), ": ", e.as_str()));
            },
        }
    } else {
        return Err(cat2("unsupported JWT algorithm ", name));
    };
    let mut signature_only = new_validation(algorithm);
    require_nothing(&mut signature_only);
    set_validate_exp(&mut signature_only, false);
    set_validate_aud(&mut signature_only, false);
    let mut validation = new_validation(algorithm);
    set_validate_exp(&mut validation, true);
    set_leeway(&mut validation, cfg.leeway_secs);
    if let Some(a) = &cfg.audience {
        set_audience(&mut validation, a.as_str());
    }
    if let Some(i) = &cfg.issuer {
        set_issuer(&mut validation, i.as_str());
    }
    Ok(JwtDecoder { key, signature_only, validation, leeway_secs: cfg.leeway_secs })
}

/// The text of a secret that may be absent.
pub open spec fn text_of_secret(secret: Option<&String>) -> Option<Seq<char>> {
    match secret {
        Some(s) => Some(s@),
        None => None,
    }
}

/// Whether a member is absent, null or a string.
pub open spec fn optional_text(m: Map<Seq<char>, JsonView>, name: Seq<char>) -> bool {
    m.contains_key(name) ==> m[name] is Null || m[name] is Str
}

/// Whether a member is absent, null or an array of strings.
pub open spec fn optional_texts(m: Map<Seq<char>, JsonView>, name: Seq<char>) -> bool {
    m.contains_key(name) ==> m[name] is Null || (m[name] matches JsonView::Array(items) && forall|i: int|
        0 <= i < items.len() ==> (#[trigger] items[i]) is Str)
}

/// Whether claims have the types that they are read with.
pub open spec fn claims_readable(claims: JsonView) -> bool {
    claims matches JsonView::Object(m) && optional_text(m, "sub"@) && optional_text(m, "scope"@) && optional_texts(
        m,
        "scopes"@,
    )
}

/// The scopes that claims grant, by either of two conventions: a text of words in
/// `scope`, and a list in `scopes`.
pub open spec fn claimed_scopes(claims: JsonView) -> Seq<Seq<char>> {
    let by_words = match crate::json::field(claims, "scope"@) {
        JsonView::Str(t) => crate::text::words(t),
        _ => Seq::empty(),
    };
    match crate::json::field(claims, "scopes"@) {
        JsonView::Array(items) => by_words + items.map_values(|j: JsonView| j->Str_0),
        _ => by_words,
    }
}

/// Whether a principal is the one that claims describe.
pub open spec fn claimed_by(p: Principal, claims: JsonView) -> bool {
    &&& p.kind == PrincipalKind::Jwt
    &&& p.id@ == (match crate::json::field(claims, "sub"@) {
        JsonView::Str(t) => t,
        _ => "jwt-subject-unset"@,
    })
    &&& crate::text::alphabetical(texts(p.scopes@))
    &&& texts(p.scopes@).to_set() == claimed_scopes(claims).to_set()
    &&& p.claims@ == claims->Object_0.remove("sub"@).remove("scope"@).remove("scopes"@)
}

fn text_of_claim(m: &Members, name: &str) -> (r: Result<Option<String>, ()>)
    ensures
        r is Ok <==> optional_text(m@, name@),
        r matches Ok(Some(t)) ==> crate::json::field(JsonView::Object(m@), name@) == JsonView::Str(t@),
        r matches Ok(None) ==> crate::json::field(JsonView::Object(m@), name@) is Null,
{
    match m.get(name) {
        None => Ok(None),
        Some(Json::Null) => Ok(None),
        Some(Json::Str(t)) => Ok(Some(t.clone())),
        Some(_) => Err(()),
    }
}

fn texts_of_claim(m: &Members, name: &str) -> (r: Result<Option<Vec<String>>, ()>)
    ensures
        r is Ok <==> optional_texts(m@, name@),
        r matches Ok(Some(list)) ==> (crate::json::field(JsonView::Object(m@), name@) matches JsonView::Array(items)
            && texts(list@) == items.map_values(|j: JsonView| j->Str_0)),
        r matches Ok(None) ==> crate::json::field(JsonView::Object(m@), name@) is Null,
{
    match m.get(name) {
        None => Ok(None),
        Some(Json::Null) => Ok(None),
        Some(Json::Array(v)) => {
            let ghost items = Json::Array(*v)@->Array_0;
            proof {
                Json::lemma_array(*v);
            }
            let mut out: Vec<String> = Vec::new();
            let mut i: usize = 0;
            while i < v.len()
                invariant
                    i <= v@.len(),
                    items.len() == v@.len(),
                    out@.len() == i,
                    m@.contains_key(name@),
                    m@[name@] == JsonView::Array(items),
                    forall|k: int| 0 <= k < v@.len() ==> items[k] == v@[k]@,
                    forall|k: int| 0 <= k < i ==> #[trigger] items[k] == JsonView::Str(out@[k]@),
                decreases v.len() - i,
            {
                assert(items[i as int] == v@[i as int]@);
                match &v[i] {
                    Json::Str(t) => {
                        out.push(t.clone());
                    },
                    _ => {
                        return Err(());
                    },
                }
                i = i + 1;
            }
            assert(texts(out@) =~= items.map_values(|j: JsonView| j->Str_0));
            Ok(Some(out))
        },
        Some(_) => Err(()),
    }
}

/// Whether an error says that claims do not have the types that they are read with. Which
/// claim it was and where it stands is not stated.
pub open spec fn is_mistyped(r: Result<Principal, AuthError>) -> bool {
    r matches Err(e) && (e@ matches AuthErrorView::Invalid(m) && "token rejected: JSON error: invalid type: "@.is_prefix_of(
        m,
    ))
}

/// What comes of what the token check said: the claims as a principal, or why the token
/// was refused.
pub open spec fn token_settled(reading: Result<JsonView, Option<Seq<char>>>, r: Result<Principal, AuthError>) -> bool {
    match reading {
        Ok(claims) => if claims_readable(claims) {
            r matches Ok(p) && claimed_by(p, claims)
        } else {
            is_mistyped(r)
        },
        Err(None) => r matches Err(e) && e@ == AuthErrorView::Expired("token has expired"@),
        Err(Some(t)) => r matches Err(e) && e@ == AuthErrorView::Invalid("token rejected: "@ + t),
    }
}

/// What comes of a token, given what its signature check and its full check say. Claims
/// are read before they are judged: a token with claims of the wrong types is told so, even
/// where it has expired too.
pub open spec fn token_judged(
    signed: Result<JsonView, Option<Seq<char>>>,
    checked: Result<JsonView, Option<Seq<char>>>,
    r: Result<Principal, AuthError>,
) -> bool {
    match signed {
        Ok(claims) => if claims_readable(claims) {
            token_settled(checked, r)
        } else {
            is_mistyped(r)
        },
        Err(_) => token_settled(signed, r),
    }
}

/// What a reply of the token check says, once its claims are read.
pub open spec fn reply_reading(r: Result<Json, TokenFault>) -> Result<JsonView, Option<Seq<char>>> {
    match r {
        Ok(j) => Ok(j@),
        Err(TokenFault::Expired) => Err(None),
        Err(TokenFault::Rejected(t)) => Err(Some(t@)),
    }
}

fn mistyped() -> (e: AuthError)
    ensures
        is_mistyped(Err(e)),
{
    let text = "token rejected: JSON error: invalid type: a claim is not of the type that it is read with";
    proof {
        reveal_strlit("token rejected: JSON error: invalid type: ");
        reveal_strlit("token rejected: JSON error: invalid type: a claim is not of the type that it is read with");
        let start = "token rejected: JSON error: invalid type: "@;
        assert(start =~= text@.subrange(0, start.len() as int));
    }
    AuthError::Invalid(text.to_owned())
}

/// Whether claims have the types that they are read with.
pub fn can_read(claims: &Json) -> (r: bool)
    ensures
        r == claims_readable(claims@),
{
    match claims {
        Json::Object(m) => text_of_claim(m, "sub").is_ok() && text_of_claim(m, "scope").is_ok() && texts_of_claim(
            m,
            "scopes",
        ).is_ok(),
        _ => false,
    }
}

/// Goes on with what the signature check of a token said: nothing where its claims can be
/// read and are to be judged.
pub fn settle_signature(reply: &Result<Json, TokenFault>) -> (r: Option<AuthError>)
    ensures
        match r {
            Some(e) => forall|checked: Result<JsonView, Option<Seq<char>>>| #[trigger]
                token_judged(reply_reading(*reply), checked, Err(e)),
            None => reply_reading(*reply) matches Ok(claims) && claims_readable(claims),
        },
{
    match reply {
        Ok(claims) => if can_read(claims) {
            None
        } else {
            Some(mistyped())
        },
        Err(TokenFault::Expired) => Some(AuthError::Expired("token has expired".to_owned())),
        Err(TokenFault::Rejected(t)) => Some(AuthError::Invalid(cat2("token rejected: ", t.as_str()))),
    }
}

/// What comes of a token: its claims as a principal, or why it was refused.
pub fn settle_token(reply: Result<Json, TokenFault>) -> (r: Result<Principal, AuthError>)
    ensures
        token_settled(reply_reading(reply), r),
{
    let claims = match reply {
        Ok(c) => c,
        Err(TokenFault::Expired) => {
            return Err(AuthError::Expired("token has expired".to_owned()));
        },
        Err(TokenFault::Rejected(t)) => {
            return Err(AuthError::Invalid(cat2("token rejected: ", t.as_str())));
        },
    };
    let bad = mistyped();
    let m = match &claims {
        Json::Object(m) => m,
        _ => {
            return Err(bad);
        },
    };
    let sub = match text_of_claim(m, "sub") {
        Ok(t) => t,
        Err(_) => {
            return Err(bad);
        },
    };
    let scope = match text_of_claim(m, "scope") {
        Ok(t) => t,
        Err(_) => {
            return Err(bad);
        },
    };
    let listed = match texts_of_claim(m, "scopes") {
        Ok(t) => t,
        Err(_) => {
            return Err(bad);
        },
    };
    let mut scopes: Vec<String> = match scope {
        Some(t) => split_words(t.as_str()),
        None => Vec::new(),
    };
    let ghost by_words = texts(scopes@);
    assert(by_words =~= match crate::json::field(claims@, "scope"@) {
        JsonView::Str(t) => crate::text::words(t),
        _ => Seq::empty(),
    });
    if let Some(list) = listed {
        let ghost more = list@;
        let mut list = list;
        let ghost was = scopes@;
        scopes.append(&mut list);
        assert(texts(scopes@) =~= by_words + texts(more));
    }
    assert(texts(scopes@) == claimed_scopes(claims@));
    Ok(
        Principal {
            id: match sub {
                Some(t) => t,
                None => "jwt-subject-unset".to_owned(),
            },
            kind: PrincipalKind::Jwt,
            scopes: sorted_unique(&scopes),
            claims: m.without("sub").without("scope").without("scopes"),
        },
    )
}

/// An API key: its digest, whose it is, and what it grants.
pub struct ApiKey {
    digest: [u8; 32],
    id: String,
    scopes: Vec<String>,
}

/// Whom API keys stand for, by their digests: the identity and its scopes.
pub type KeyTable = Map<Seq<u8>, (Seq<char>, Seq<Seq<char>>)>;

spec fn keys_view(keys: Seq<ApiKey>, n: nat) -> KeyTable
    decreases n,
{
    if n == 0 || n > keys.len() {
        Map::empty()
    } else {
        let k = keys[n - 1];
        keys_view(keys, (n - 1) as nat).insert(k.digest@, (k.id@, texts(k.scopes@)))
    }
}

proof fn lemma_keys_view_prefix(a: Seq<ApiKey>, b: Seq<ApiKey>, n: nat)
    requires
        n <= a.len(),
        n <= b.len(),
        forall|i: int| 0 <= i < n ==> a[i] == b[i],
    ensures
        keys_view(a, n) == keys_view(b, n),
    decreases n,
{
    if n > 0 {
        lemma_keys_view_prefix(a, b, (n - 1) as nat);
        assert(a[n - 1] == b[n - 1]);
    }
}

/// The keys that a configuration and the environment make: the digest of every
/// variable that is set and not empty stands for its principal.
pub open spec fn configured_keys(
    pairs: Seq<(Seq<char>, crate::manifest::ApiKeySpec)>,
    env: Map<Seq<char>, String>,
) -> KeyTable
    decreases pairs.len(),
{
    if pairs.len() == 0 {
        Map::empty()
    } else {
        let (var, spec) = pairs.last();
        let before = configured_keys(pairs.drop_last(), env);
        if env.contains_key(var) && env[var]@.len() > 0 {
            before.insert(
                sha256_digest(vstd::utf8::encode_utf8(env[var]@)),
                (spec.id@, texts(spec.scopes@)),
            )
        } else {
            before
        }
    }
}

/// Resolves credentials into principals. Built once at boot.
pub struct Authenticator {
    keys: Vec<ApiKey>,
    api_key_header: String,
    jwt: Option<JwtDecoder>,
    anonymous_scopes: Vec<String>,
}

/// The token that an `Authorization` header carries.
pub open spec fn bearer_token(header: Seq<char>) -> Option<Seq<char>> {
    let value = crate::text::trimmed(header);
    match crate::text::after_prefix(value, "Bearer "@) {
        Some(t) => Some(crate::text::trimmed(t)),
        None => match crate::text::after_prefix(value, "bearer "@) {
            Some(t) => Some(crate::text::trimmed(t)),
            None => None,
        },
    }
}

fn read_bearer(header: &str) -> (r: Option<String>)
    ensures
        match r {
            Some(t) => bearer_token(header@) == Some(t@),
            None => bearer_token(header@) is None,
        },
{
    let value = trim(header);
    let token = match strip_prefix(value.as_str(), "Bearer ") {
        Some(t) => Some(t),
        None => strip_prefix(value.as_str(), "bearer "),
    };
    match token {
        Some(t) => Some(trim(t.as_str())),
        None => None,
    }
}

impl Authenticator {
    /// The keys that are accepted. They are kept as digests, so that a copy of the
    /// memory does not hand over live credentials.
    pub closed spec fn key_table(&self) -> KeyTable {
        keys_view(self.keys@, self.keys@.len())
    }

    /// The header that an API key is presented in, in lower case.
    pub closed spec fn header_name(&self) -> Seq<char> {
        self.api_key_header@
    }

    /// The token check, if tokens are accepted.
    pub closed spec fn decoder(&self) -> Option<JwtDecoder> {
        self.jwt
    }

    /// What a caller without a credential may do.
    pub closed spec fn open_scopes(&self) -> Seq<Seq<char>> {
        texts(self.anonymous_scopes@)
    }

    /// Builds the check from the configuration and the environment's variables.
    pub fn build(cfg: &AuthConfig, env: &Table<String>) -> (r: Result<Authenticator, String>)
        ensures
            match r {
                Ok(a) => {
                    &&& a.key_table() == configured_keys(cfg.api_keys.pairs(), env@)
                    &&& a.header_name() == crate::text::lowered(cfg.api_key_header@)
                    &&& a.open_scopes() == texts(cfg.anonymous_scopes@)
                    &&& a.decoder() is Some <==> cfg.jwt is Some
                    &&& cfg.jwt matches Some(j) ==> jwt_fault(j, secret_in(env@, j.secret_env@)) is None
                        && a.decoder()->0.source() == secret_source(j, secret_in(env@, j.secret_env@)->0)
                        && a.decoder()->0.rules() == rules_of(j)
                },
                Err(e) => cfg.jwt matches Some(j) && jwt_fault(j, secret_in(env@, j.secret_env@)) == Some(e@),
            },
    {
        let mut keys: Vec<ApiKey> = Vec::new();
        let ghost pairs = cfg.api_keys.pairs();
        let n: usize = cfg.api_keys.len();
        let mut i: usize = 0;
        while i < n
            invariant
                i <= n == pairs.len(),
                pairs == cfg.api_keys.pairs(),
                keys_view(keys@, keys@.len()) == configured_keys(pairs.take(i as int), env@),
            decreases n - i,
        {
            let var = cfg.api_keys.key_at(i);
            let spec = cfg.api_keys.value_at(i);
            assert(pairs.take(i + 1).drop_last() =~= pairs.take(i as int));
            assert(pairs.take(i + 1).last() == pairs[i as int]);
            match env.get(var) {
                Some(secret) => {
                    if !secret.as_str().is_empty() {
                        let ghost was = keys@;
                        keys.push(
                            ApiKey {
                                digest: sha256(secret.as_str().as_bytes()),
                                id: spec.id.clone(),
                                scopes: crate::text::copy_texts(&spec.scopes),
                            },
                        );
                        proof {
                            lemma_keys_view_prefix(was, keys@, was.len());
                        }
                    }
                },
                None => {},
            }
            i = i + 1;
        }
        assert(pairs.take(pairs.len() as int) =~= pairs);
        let jwt = match &cfg.jwt {
            Some(j) => match build_jwt_decoder(j, env.get(j.secret_env.as_str())) {
                Ok(d) => Some(d),
                Err(e) => {
                    return Err(e);
                },
            },
            None => None,
        };
        Ok(
            Authenticator {
                keys,
                api_key_header: to_lower(cfg.api_key_header.as_str()),
                jwt,
                anonymous_scopes: crate::text::copy_texts(&cfg.anonymous_scopes),
            },
        )
    }

    /// What may come of some request headers: a key is looked at first, then a token,
    /// and without either the caller is anonymous.
    pub open spec fn outcome(&self, headers: Map<Seq<char>, String>, r: Result<Principal, AuthError>) -> bool {
        if headers.contains_key(self.header_name()) {
            key_outcome(self.key_table(), crate::text::trimmed(headers[self.header_name()]@), r)
        } else if headers.contains_key("authorization"@) {
            match bearer_token(headers["authorization"@]@) {
                None => r matches Err(e) && e@ == AuthErrorView::Malformed(
                    "Authorization header must use the Bearer scheme"@,
                ),
                Some(t) => token_outcome(self.decoder(), t, r),
            }
        } else {
            r matches Ok(p) && p.id@ == "anonymous"@ && p.kind == PrincipalKind::Anonymous && texts(p.scopes@)
                == self.open_scopes() && p.claims@ == Map::<Seq<char>, JsonView>::empty()
        }
    }

    /// Whether request headers can be looked at: they carry no token that would be checked,
    /// or the clock can take the leeway that tokens are given.
    pub open spec fn is_ready(&self, headers: Map<Seq<char>, String>) -> bool {
        (self.decoder() matches Some(d) && d.rules().leeway > MAX_LEEWAY_SECS && !headers.contains_key(
            self.header_name(),
        ) && headers.contains_key("authorization"@)) ==> bearer_token(headers["authorization"@]@) is None
    }

    /// Whether request headers can be looked at.
    pub fn is_ready_for(&self, headers: &Table<String>) -> (r: bool)
        ensures
            r == self.is_ready(headers@),
    {
        match &self.jwt {
            None => true,
            Some(d) => {
                proof {
                    use_type_invariant(d);
                }
                if d.leeway_secs <= MAX_LEEWAY_SECS || headers.get(self.api_key_header.as_str()).is_some() {
                    return true;
                }
                match headers.get("authorization") {
                    Some(auth) => read_bearer(auth.as_str()).is_none(),
                    None => true,
                }
            },
        }
    }

    /// Establish identity from request headers.
    ///
    /// A malformed or expired credential is an error, not a silent downgrade to
    /// anonymous. Where a token is checked, the outcome depends on the clock: it
    /// is what [`settle_token`] makes of some reply.
    pub fn authenticate(&self, headers: &Table<String>) -> (r: Result<Principal, AuthError>)
        requires
            self.is_ready(headers@),
        ensures
            self.outcome(headers@, r),
    {
        if let Some(raw) = headers.get(self.api_key_header.as_str()) {
            return self.authenticate_api_key(trim(raw.as_str()).as_str());
        }
        if let Some(auth) = headers.get("authorization") {
            return match read_bearer(auth.as_str()) {
                Some(t) => self.authenticate_jwt(t.as_str()),
                None => Err(
                    AuthError::Malformed("Authorization header must use the Bearer scheme".to_owned()),
                ),
            };
        }
        let mut p = Principal::anonymous();
        p.scopes = crate::text::copy_texts(&self.anonymous_scopes);
        Ok(p)
    }

    /// Compares a presented key with every known one, by digest and in constant
    /// time.
    pub fn authenticate_api_key(&self, presented: &str) -> (r: Result<Principal, AuthError>)
        ensures
            key_outcome(self.key_table(), presented@, r),
    {
        let digest = sha256(presented.as_bytes());
        let mut found: Option<usize> = None;
        let mut i: usize = 0;
        while i < self.keys.len()
            invariant
                i <= self.keys@.len(),
                match found {
                    Some(k) => k < i && self.keys@[k as int].digest@ == digest@ && keys_view(
                        self.keys@,
                        i as nat,
                    ).contains_key(digest@) && keys_view(self.keys@, i as nat)[digest@] == (
                        self.keys@[k as int].id@,
                        texts(self.keys@[k as int].scopes@),
                    ),
                    None => !keys_view(self.keys@, i as nat).contains_key(digest@),
                },
            decreases self.keys.len() - i,
        {
            if digests_equal(&self.keys[i].digest, &digest) {
                found = Some(i);
            }
            i = i + 1;
        }
        match found {
            Some(k) => {
                let key = &self.keys[k];
                Ok(
                    Principal {
                        id: key.id.clone(),
                        kind: PrincipalKind::ApiKey,
                        scopes: crate::text::copy_texts(&key.scopes),
                        claims: Members::new(),
                    },
                )
            },
            None => Err(AuthError::Invalid("unrecognised API key".to_owned())),
        }
    }

    /// Checks a bearer token.
    pub fn authenticate_jwt(&self, token: &str) -> (r: Result<Principal, AuthError>)
        requires
            self.decoder() matches Some(d) ==> d.rules().leeway <= MAX_LEEWAY_SECS,
        ensures
            token_outcome(self.decoder(), token@, r),
    {
        match &self.jwt {
            None => Err(AuthError::Invalid("bearer tokens are not accepted by this app".to_owned())),
            Some(d) => {
                proof {
                    use_type_invariant(d);
                }
                let signed = d.read(token, false);
                let ghost first = reply_reading(signed);
                let ghost then = choose|then: int|
                    token_reading(token@, d.source(), signature_rules(d.rules().algorithm), then) == first;
                if let Some(e) = settle_signature(&signed) {
                    let ghost second = token_reading(token@, d.source(), d.rules(), then);
                    assert(token_judged(first, second, Err(e)));
                    return Err(e);
                }
                let checked = d.read(token, true);
                let ghost second = reply_reading(checked);
                let ghost now = choose|now: int| token_reading(token@, d.source(), d.rules(), now) == second;
                let r = settle_token(checked);
                assert(token_judged(
                    token_reading(token@, d.source(), signature_rules(d.rules().algorithm), then),
                    token_reading(token@, d.source(), d.rules(), now),
                    r,
                ));
                r
            },
        }
    }
}

/// The value of a variable, if it is set.
pub open spec fn secret_in(env: Map<Seq<char>, String>, var: Seq<char>) -> Option<Seq<char>> {
    if env.contains_key(var) {
        Some(env[var]@)
    } else {
        None
    }
}

/// What comes of presenting an API key: the principal that its digest stands for,
/// or a refusal.
pub open spec fn key_outcome(keys: KeyTable, presented: Seq<char>, r: Result<Principal, AuthError>) -> bool {
    let digest = sha256_digest(vstd::utf8::encode_utf8(presented));
    if keys.contains_key(digest) {
        r matches Ok(p) && p.id@ == keys[digest].0 && p.kind == PrincipalKind::ApiKey && texts(p.scopes@)
            == keys[digest].1 && p.claims@ == Map::<Seq<char>, JsonView>::empty()
    } else {
        r matches Err(e) && e@ == AuthErrorView::Invalid("unrecognised API key"@)
    }
}

/// What comes of presenting a token: a refusal where tokens are not accepted, else what the
/// token check says of it at some time, by the key and the rules that were configured.
pub open spec fn token_outcome(decoder: Option<JwtDecoder>, token: Seq<char>, r: Result<Principal, AuthError>) -> bool {
    match decoder {
        Some(d) => exists|then: int, now: int|
            token_judged(
                #[trigger] token_reading(token, d.source(), signature_rules(d.rules().algorithm), then),
                #[trigger] token_reading(token, d.source(), d.rules(), now),
                r,
            ),
        None => r matches Err(e) && e@ == AuthErrorView::Invalid("bearer tokens are not accepted by this app"@),
    }
}

/// A scope is granted by its own name or by the star, and by nothing else.
pub proof fn law_a_scope_is_granted_by_its_name(scopes: Seq<Seq<char>>, scope: Seq<char>)
    ensures
        scopes.contains(scope) ==> grants(scopes, scope),
        scopes.contains("*"@) ==> grants(scopes, scope),
        !scopes.contains(scope) && !scopes.contains("*"@) ==> !grants(scopes, scope),
{
}

/// A delegate holds what it asks for and its caller has, and all that its caller has where it
/// asks for nothing; it is an agent that says its name and on whose behalf it acts, and keeps
/// the other claims.
pub proof fn law_a_delegate_says_on_whose_behalf_it_acts(
    p: PrincipalView,
    name: Seq<char>,
    wanted: Seq<Seq<char>>,
    scope: Seq<char>,
    claim: Seq<char>,
)
    ensures
        ({
            let d = delegate_view(p, name, wanted);
            &&& d.kind == PrincipalKind::Agent
            &&& d.id == "agent:"@ + name + "#"@ + p.id
            &&& d.claims.contains_key("agent"@) && d.claims["agent"@] == JsonView::Str(name)
            &&& d.claims.contains_key("on_behalf_of"@) && d.claims["on_behalf_of"@] == JsonView::Str(p.id)
            &&& claim != "agent"@ && claim != "on_behalf_of"@ ==> d.claims.contains_key(claim) == p.claims.contains_key(claim)
                && (p.claims.contains_key(claim) ==> d.claims[claim] == p.claims[claim])
            &&& wanted.len() == 0 ==> d.scopes == p.scopes
            &&& wanted.len() > 0 ==> (d.scopes.contains(scope) <==> wanted.contains(scope) && (p.scopes.contains(scope)
                || p.scopes.contains("*"@)))
        }),
{
    reveal_strlit("agent");
    reveal_strlit("on_behalf_of");
    assert("agent"@.len() == 5);
    assert("on_behalf_of"@.len() == 12);
    let d = delegate_view(p, name, wanted);
    if wanted.len() > 0 {
        let keep = |s: Seq<char>| grants(p.scopes, s);
        if wanted.contains(scope) && keep(scope) {
            let i = choose|i: int| 0 <= i < wanted.len() && wanted[i] == scope;
            wanted.lemma_filter_contains(keep, i);
        }
        if d.scopes.contains(scope) {
            let i = choose|i: int| 0 <= i < d.scopes.len() && d.scopes[i] == scope;
            wanted.lemma_filter_pred(keep, i);
            wanted.lemma_filter_contains_rev(keep, scope);
        }
    }
}

/// Whoever presents a key that is configured is the principal that it stands for, with its
/// scopes; a key that is not is refused, and a variable that is not set makes none.
pub proof fn law_a_configured_key_is_its_principal(
    pairs: Seq<(Seq<char>, crate::manifest::ApiKeySpec)>,
    env: Map<Seq<char>, String>,
    var: Seq<char>,
    spec: crate::manifest::ApiKeySpec,
    r: Result<Principal, AuthError>,
)
    ensures
        ({
            let keys = configured_keys(pairs.push((var, spec)), env);
            &&& env.contains_key(var) && env[var]@.len() > 0 && key_outcome(keys, env[var]@, r) ==> (r matches Ok(p)
                && p.id@ == spec.id@ && p.kind == PrincipalKind::ApiKey && texts(p.scopes@) == texts(spec.scopes@))
            &&& !env.contains_key(var) || env[var]@.len() == 0 ==> keys == configured_keys(pairs, env)
            &&& configured_keys(Seq::empty(), env).dom().is_empty()
        }),
        key_outcome(Map::empty(), var, r) ==> (r matches Err(e) && e@ is Invalid),
{
    assert(pairs.push((var, spec)).drop_last() =~= pairs);
}

proof fn lemma_nothing_to_trim(s: Seq<char>)
    requires
        s.len() > 0,
        !crate::text::is_space(s[0]),
        !crate::text::is_space(s.last()),
    ensures
        crate::text::trimmed(s) == s,
{
}

/// A bearer's token is what stands behind the scheme, and a header of another scheme has
/// none.
pub proof fn law_a_bearers_token_is_read(token: Seq<char>, header: Seq<char>)
    requires
        token.len() > 0,
        !crate::text::is_space(token[0]),
        !crate::text::is_space(token.last()),
    ensures
        bearer_token("Bearer "@ + token) == Some(token),
        bearer_token("bearer "@ + token) == Some(token),
        header.len() > 0 && header[0] != 'B' && header[0] != 'b' && !crate::text::is_space(header[0])
            && !crate::text::is_space(header.last()) ==> bearer_token(header) is None,
{
    reveal_strlit("Bearer ");
    reveal_strlit("bearer ");
    assert("Bearer "@.len() == 7);
    assert("bearer "@.len() == 7);
    assert("Bearer "@[0] != "bearer "@[0]);
    assert("Bearer "@[0] == 'B' && "bearer "@[0] == 'b');
    let a = "Bearer "@ + token;
    let b = "bearer "@ + token;
    assert(a[0] == 'B' && b[0] == 'b');
    assert(a.last() == token.last() && b.last() == token.last());
    lemma_nothing_to_trim(a);
    lemma_nothing_to_trim(b);
    lemma_nothing_to_trim(token);
    assert(a.subrange(0, 7) =~= "Bearer "@);
    assert(a.skip(7) =~= token);
    assert(b.subrange(0, 7) =~= "bearer "@);
    assert(b.skip(7) =~= token);
    if "Bearer "@.is_prefix_of(b) {
        assert(b.subrange(0, 7)[0] == 'b');
    }
    if header.len() > 0 && header[0] != 'B' && header[0] != 'b' && !crate::text::is_space(header[0])
        && !crate::text::is_space(header.last()) {
        lemma_nothing_to_trim(header);
        if "Bearer "@.is_prefix_of(header) {
            assert(header.subrange(0, 7)[0] == header[0]);
        }
        if "bearer "@.is_prefix_of(header) {
            assert(header.subrange(0, 7)[0] == header[0]);
        }
    }
}

/// Claims make the principal that they describe: its subject is its id, and it holds exactly
/// the scopes that they grant, as words or in a list; the rest it keeps as claims.
pub proof fn law_claims_make_the_principal_that_they_describe(
    p: Principal,
    claims: JsonView,
    subject: Seq<char>,
    scope: Seq<char>,
    name: Seq<char>,
)
    requires
        claims_readable(claims),
        claimed_by(p, claims),
    ensures
        p.kind == PrincipalKind::Jwt,
        crate::json::member(claims, "sub"@) == Some(JsonView::Str(subject)) ==> p.id@ == subject,
        crate::json::member(claims, "sub"@) is None ==> p.id@ == "jwt-subject-unset"@,
        texts(p.scopes@).contains(scope) <==> {
            ||| crate::json::member(claims, "scope"@) matches Some(JsonView::Str(t)) && crate::text::words(t).contains(scope)
            ||| crate::json::member(claims, "scopes"@) matches Some(JsonView::Array(list)) && list.contains(JsonView::Str(scope))
        },
        name != "sub"@ && name != "scope"@ && name != "scopes"@ ==> crate::json::member(claims, name) == (
        if p.claims@.contains_key(name) {
            Some(p.claims@[name])
        } else {
            None
        }),
        !p.claims@.contains_key("sub"@) && !p.claims@.contains_key("scope"@) && !p.claims@.contains_key("scopes"@),
{
    let m = claims->Object_0;
    let all = claimed_scopes(claims);
    let by_words = match crate::json::field(claims, "scope"@) {
        JsonView::Str(t) => crate::text::words(t),
        _ => Seq::empty(),
    };
    assert(texts(p.scopes@).to_set().contains(scope) <==> all.to_set().contains(scope));
    assert(texts(p.scopes@).contains(scope) <==> all.contains(scope));
    if by_words.contains(scope) {
        let i = choose|i: int| 0 <= i < by_words.len() && by_words[i] == scope;
        assert(all[i] == scope);
    }
    if m.contains_key("scopes"@) && m["scopes"@] is Array {
        let items = m["scopes"@]->Array_0;
        let listed = items.map_values(|j: JsonView| j->Str_0);
        assert(all == by_words + listed);
        if items.contains(JsonView::Str(scope)) {
            let i = choose|i: int| 0 <= i < items.len() && items[i] == JsonView::Str(scope);
            assert(listed[i] == scope);
            assert(all[by_words.len() + i] == scope);
        }
        if all.contains(scope) {
            let i = choose|i: int| 0 <= i < all.len() && all[i] == scope;
            if i < by_words.len() {
                assert(by_words[i] == scope);
            } else {
                let k = i - by_words.len();
                assert(items[k] is Str);
                assert(listed[k] == scope);
                assert(items[k] == JsonView::Str(scope));
            }
        }
    } else {
        assert(all == by_words);
    }
}

/// Tokens are accepted only with a secret that is set and long enough and an algorithm that
/// is known; a shared secret of that length is then enough.
pub proof fn law_tokens_need_a_long_secret(cfg: JwtConfig, secret: Seq<char>)
    ensures
        jwt_fault(cfg, None) is Some,
        vstd::utf8::encode_utf8(secret).len() < 32 ==> jwt_fault(cfg, Some(secret)) is Some,
        vstd::utf8::encode_utf8(secret).len() >= 32 && (cfg.algorithm@ == "HS256"@ || cfg.algorithm@ == "HS384"@
            || cfg.algorithm@ == "HS512"@) ==> jwt_fault(cfg, Some(secret)) is None && secret_source(cfg, secret)
            == KeySource::Secret(vstd::utf8::encode_utf8(secret)),
        jwt_fault(cfg, Some(secret)) is None ==> cfg.algorithm@ == "HS256"@ || cfg.algorithm@ == "HS384"@ || cfg.algorithm@
            == "HS512"@ || cfg.algorithm@ == "RS256"@ || cfg.algorithm@ == "RS384"@ || cfg.algorithm@ == "RS512"@,
{
}

/// A token is held to what is configured: the algorithm, the leeway, the audience and the
/// issuer.
pub proof fn law_a_token_is_held_to_what_is_configured(cfg: JwtConfig)
    ensures
        ({
            let rules = rules_of(cfg);
            &&& rules.algorithm == cfg.algorithm@ && rules.leeway == cfg.leeway_secs && rules.validate_aud
            &&& cfg.audience matches Some(a) ==> rules.audience == Some(a@)
            &&& cfg.audience is None ==> rules.audience is None
            &&& cfg.issuer matches Some(i) ==> rules.issuer == Some(i@)
            &&& cfg.issuer is None ==> rules.issuer is None
        }),
{
}

/// A token is judged by what its checks say: a caller whose token passes both is who its
/// claims say; one whose signature is refused is refused for that; one that has expired is
/// told so; and claims that cannot be read are refused before they are judged.
pub proof fn law_a_token_is_judged_by_its_checks(
    claims: JsonView,
    why: Seq<char>,
    checked: Result<JsonView, Option<Seq<char>>>,
    r: Result<Principal, AuthError>,
)
    ensures
        claims_readable(claims) && token_judged(Ok(claims), Ok(claims), r) ==> (r matches Ok(p) && claimed_by(p, claims)),
        token_judged(Err(Some(why)), checked, r) ==> (r matches Err(e) && e@ == AuthErrorView::Invalid(
            "token rejected: "@ + why,
        )),
        claims_readable(claims) && token_judged(Ok(claims), Err(None), r) ==> (r matches Err(e) && e@
            == AuthErrorView::Expired("token has expired"@)),
        claims_readable(claims) && token_judged(Ok(claims), Err(Some(why)), r) ==> (r matches Err(e) && e@
            == AuthErrorView::Invalid("token rejected: "@ + why)),
        !claims_readable(claims) && token_judged(Ok(claims), checked, r) ==> r is Err,
{
}

/// Where tokens are not accepted, every token is refused; where they are, nobody is let in
/// whose token the check refuses at every time.
pub proof fn law_a_refused_token_lets_nobody_in(decoder: Option<JwtDecoder>, token: Seq<char>, r: Result<Principal, AuthError>)
    requires
        token_outcome(decoder, token, r),
    ensures
        decoder is None ==> r is Err,
        decoder matches Some(d) ==> ((forall|now: int| (#[trigger] token_reading(token, d.source(), d.rules(), now)) is Err)
            ==> r is Err),
{
}

/// A caller is who their credentials say: a key is looked at first, then a token, and
/// whoever presents neither is anonymous, with the scopes that are open to all.
pub proof fn law_a_caller_is_who_their_credentials_say(
    a: Authenticator,
    headers: Map<Seq<char>, String>,
    r: Result<Principal, AuthError>,
)
    requires
        a.outcome(headers, r),
    ensures
        headers.contains_key(a.header_name()) ==> key_outcome(
            a.key_table(),
            crate::text::trimmed(headers[a.header_name()]@),
            r,
        ),
        !headers.contains_key(a.header_name()) && !headers.contains_key("authorization"@) ==> (r matches Ok(p) && p.kind
            == PrincipalKind::Anonymous && p.id@ == "anonymous"@ && texts(p.scopes@) == a.open_scopes()),
        !headers.contains_key(a.header_name()) && headers.contains_key("authorization"@) && bearer_token(
            headers["authorization"@]@,
        ) is None ==> (r matches Err(e) && e@ is Malformed),
        r matches Ok(p) ==> (p.kind == PrincipalKind::Anonymous ==> !headers.contains_key(a.header_name())),
{
}

} // verus!
