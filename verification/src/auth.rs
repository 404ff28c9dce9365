//! Staff sign-in: which bearer tokens are accepted and whose identity they
//! carry. Tokens are RS256 JWTs from a Microsoft Entra tenant; a fixed test
//! token stands in for them in test servers. Fetching the tenant's signing
//! keys over the network is done around the library; checking a token's
//! signature and lifetime goes through `jsonwebtoken`.
use vstd::prelude::*;
use vstd::string::StringExecFns;
use crate::seqs::{first_match, lemma_first_match_at, lemma_first_match_none};
use crate::codec::base64url_decoded;
use crate::text::{has_prefix, str_eq, str_has_prefix};

verus! {

/// The tenant, application and discovery document that tokens must match.
pub struct AuthVerifier {
    pub tenant_id: String,
    pub client_id: String,
    pub discovery_url: String,
    pub test_token: Option<String>,
}

/// One signing key of the tenant.
#[derive(Debug)]
pub struct Jwk {
    pub kid: String,
    pub n: String,
    pub e: String,
}

/// The tenant's issuer and signing keys, loaded at `loaded_at` (seconds).
#[derive(Debug)]
pub struct KeyCache {
    pub issuer: String,
    pub keys: Vec<Jwk>,
    pub loaded_at: i64,
}

/// The claims of a token whose signature and lifetime were checked.
#[derive(Debug)]
pub struct TokenClaims {
    pub aud: String,
    pub tid: String,
    pub iss: String,
    pub oid: String,
}

/// Why a bearer token was refused.
#[derive(Clone, Copy, Debug, PartialEq, Eq, Structural)]
pub enum AuthError {
    KeysUnavailable,
    InvalidToken,
    WrongAlgorithm,
    MissingKeyId,
    UnknownKey,
    WrongAudience,
    WrongTenant,
    WrongIssuer,
    BadKey,
    Rejected,
}

pub open spec fn auth_error_text(e: AuthError) -> Seq<char> {
    match e {
        AuthError::KeysUnavailable => "identity keys unavailable"@,
        AuthError::InvalidToken => "invalid bearer token"@,
        AuthError::WrongAlgorithm => "only RS256 tokens are accepted"@,
        AuthError::MissingKeyId => "bearer token has no key id"@,
        AuthError::UnknownKey => "unknown bearer key"@,
        AuthError::WrongAudience => "wrong token audience"@,
        AuthError::WrongTenant => "wrong token tenant"@,
        AuthError::WrongIssuer => "wrong token issuer"@,
        AuthError::BadKey => "signing key is not valid base64url"@,
        AuthError::Rejected => "bearer token signature or lifetime rejected"@,
    }
}

impl AuthError {
    /// The explanation of the refusal.
    pub fn message(&self) -> (m: &'static str)
        ensures
            m@ == auth_error_text(*self),
    {
        match self {
            AuthError::KeysUnavailable => "identity keys unavailable",
            AuthError::InvalidToken => "invalid bearer token",
            AuthError::WrongAlgorithm => "only RS256 tokens are accepted",
            AuthError::MissingKeyId => "bearer token has no key id",
            AuthError::UnknownKey => "unknown bearer key",
            AuthError::WrongAudience => "wrong token audience",
            AuthError::WrongTenant => "wrong token tenant",
            AuthError::WrongIssuer => "wrong token issuer",
            AuthError::BadKey => "signing key is not valid base64url",
            AuthError::Rejected => "bearer token signature or lifetime rejected",
        }
    }
}

pub open spec fn default_or(v: Option<String>, d: Seq<char>) -> Seq<char> {
    match v {
        Some(s) => s@,
        None => d,
    }
}

/// The OpenID discovery address of tenant `tenant` under `subdomain`.
pub open spec fn discovery_address(subdomain: Seq<char>, tenant: Seq<char>) -> Seq<char> {
    "https://"@ + subdomain + ".ciamlogin.com/"@ + tenant + "/v2.0/.well-known/openid-configuration"@
}

/// The identity that a test token carries: `test-owner-oid` for the test
/// token itself, the token followed by `-oid` otherwise.
pub open spec fn test_identity(token: Seq<char>) -> Seq<char> {
    if token == "test-owner"@ { "test-owner-oid"@ } else { token + "-oid"@ }
}

/// Whether `token` is accepted as a test token: a test token is configured
/// and `token` is it, or, in a debug build, `token` starts with `test-owner-`.
pub open spec fn accepts_as_test(test_token: Option<String>, token: Seq<char>, debug_build: bool) -> bool {
    test_token is Some && ((test_token->0)@ == token || (debug_build && has_prefix(token, "test-owner-"@)))
}

/// The signing key with id `kid`.
pub open spec fn key_with_id(kid: Seq<char>) -> spec_fn(Jwk) -> bool {
    |k: Jwk| k.kid@ == kid
}

/// What `jsonwebtoken::decode_header` reads from `token`: the name of its
/// algorithm (`RS256`, `HS256`, ...) and its key id; `None` when it is no JWT.
pub uninterp spec fn jwt_header(token: Seq<char>) -> Option<(Seq<char>, Option<Seq<char>>)>;

pub open spec fn opt_text(o: Option<String>) -> Option<Seq<char>> {
    match o {
        Some(s) => Some(s@),
        None => None,
    }
}

/// Calls `jsonwebtoken::decode_header`; what it reads is named `jwt_header`.
/// The algorithm is handed on by its name, as its `Debug` form spells it.
#[verifier::external_body]
fn decode_token_header(token: &str) -> (r: Option<(String, Option<String>)>)
    ensures
        match r {
            Some((alg, kid)) => jwt_header(token@) == Some((alg@, opt_text(kid))),
            None => jwt_header(token@) is None,
        },
{
    match jsonwebtoken::decode_header(token) {
        Ok(h) => Some((format!("{:?}", h.alg), h.kid)),
        Err(_) => None,
    }
}

#[verifier::external_type_specification]
#[verifier::external_body]
pub struct ExDecodingKey(jsonwebtoken::DecodingKey);

/// Calls `jsonwebtoken::DecodingKey::from_rsa_components`, which decodes the
/// modulus and the exponent as unpadded URL-safe base64 and fails exactly
/// when one of them does not decode.
#[verifier::external_body]
fn rsa_key(n: &str, e: &str) -> (r: Option<jsonwebtoken::DecodingKey>)
    ensures
        r is Some <==> (base64url_decoded(n@) is Some && base64url_decoded(e@) is Some),
{
    jsonwebtoken::DecodingKey::from_rsa_components(n, e).ok()
}

/// The string claims `aud`, `tid`, `iss` and `oid` of the payload of
/// `token`, as `jsonwebtoken::decode` reads the payload into a map of JSON
/// values; `None` when the payload does not decode or one of the four is
/// missing or not a string. A function of the token text alone.
pub uninterp spec fn jwt_claims(token: Seq<char>) -> Option<(Seq<char>, Seq<char>, Seq<char>, Seq<char>)>;

/// Calls `jsonwebtoken::decode` with RS256 as the only algorithm, `audience`
/// as the only audience and `issuer` as the only issuer, and hands out the
/// string claims `aud`, `tid`, `iss` and `oid`. Claimed, as the crate's
/// source shows: a token comes through only with an RS256 header, the
/// claims handed out are those of the token's own payload (named
/// `jwt_claims`), and its `aud` and `iss` are the ones asked for. Whether it
/// comes through also depends on its signature and on the clock (`exp`,
/// `nbf`), so nothing is claimed of when it does.
#[verifier::external_body]
fn decode_claims(token: &str, key: &jsonwebtoken::DecodingKey, audience: &str, issuer: &str) -> (r: Option<TokenClaims>)
    ensures
        r matches Some(c) ==> {
            &&& jwt_claims(token@) == Some((c.aud@, c.tid@, c.iss@, c.oid@))
            &&& c.aud@ == audience@
            &&& c.iss@ == issuer@
            &&& jwt_header(token@) matches Some((alg, _)) && alg == "RS256"@
        },
{
    let mut validation = jsonwebtoken::Validation::new(jsonwebtoken::Algorithm::RS256);
    validation.set_audience(&[audience]);
    validation.set_issuer(&[issuer]);
    let data = jsonwebtoken::decode::<std::collections::HashMap<String, serde_json::Value>>(token, key, &validation).ok()?;
    let c = data.claims;
    Some(TokenClaims {
        aud: c.get("aud")?.as_str()?.to_owned(),
        tid: c.get("tid")?.as_str()?.to_owned(),
        iss: c.get("iss")?.as_str()?.to_owned(),
        oid: c.get("oid")?.as_str()?.to_owned(),
    })
}

/// The signing key that a token must have been signed with: the cached key
/// named by its key id, once the token is an RS256 JWT.
pub open spec fn key_lookup(token: Seq<char>, cache: Option<&KeyCache>) -> Result<Jwk, AuthError> {
    match cache {
        None => Err(AuthError::KeysUnavailable),
        Some(c) => match jwt_header(token) {
            None => Err(AuthError::InvalidToken),
            Some((alg, kid)) => if alg != "RS256"@ {
                Err(AuthError::WrongAlgorithm)
            } else {
                match kid {
                    None => Err(AuthError::MissingKeyId),
                    Some(k) => match first_match(c.keys@, key_with_id(k)) {
                        None => Err(AuthError::UnknownKey),
                        Some(i) => Ok(c.keys@[i]),
                    },
                }
            },
        },
    }
}

/// Whether the components of `key` decode, so that a decoding key can be made of it.
pub open spec fn usable_key(key: Jwk) -> bool {
    base64url_decoded(key.n@) is Some && base64url_decoded(key.e@) is Some
}

/// Whether loaded signing keys are still fresh at `now`: under an hour old.
pub open spec fn fresh_at(cache: Option<&KeyCache>, now: i64) -> bool {
    match cache {
        Some(c) => now - c.loaded_at < 3600,
        None => false,
    }
}

/// Whether the signing keys must be loaded (again) before use at `now`.
pub fn keys_fresh(cache: Option<&KeyCache>, now: i64) -> (b: bool)
    ensures
        b == fresh_at(cache, now),
{
    match cache {
        Some(c) => (now as i128) - (c.loaded_at as i128) < 3600,
        None => false,
    }
}

impl AuthVerifier {
    /// A verifier for tenant `tenant_id` (default the school tenant) under
    /// `subdomain`, for application `client_id`, with an optional test token.
    pub fn from_settings(tenant_id: Option<String>, subdomain: Option<String>, client_id: Option<String>, test_token: Option<String>) -> (v: AuthVerifier)
        ensures
            v.tenant_id@ == default_or(tenant_id, "35c6fe40-0ec0-46b6-98c6-213ad4de6650"@),
            v.client_id@ == default_or(client_id, "25c704f4-465a-47af-80ab-2c489466b697"@),
            v.discovery_url@ == discovery_address(default_or(subdomain, "sociobotcustomers"@), v.tenant_id@),
            v.test_token == test_token,
    {
        let tenant = match tenant_id {
            Some(t) => t,
            None => "35c6fe40-0ec0-46b6-98c6-213ad4de6650".to_owned(),
        };
        let sub = match subdomain {
            Some(s) => s,
            None => "sociobotcustomers".to_owned(),
        };
        let client = match client_id {
            Some(c) => c,
            None => "25c704f4-465a-47af-80ab-2c489466b697".to_owned(),
        };
        let mut url = "https://".to_owned();
        url.append(sub.as_str());
        url.append(".ciamlogin.com/");
        url.append(tenant.as_str());
        url.append("/v2.0/.well-known/openid-configuration");
        proof {
            assert(url@ =~= discovery_address(sub@, tenant@));
        }
        AuthVerifier { tenant_id: tenant, client_id: client, discovery_url: url, test_token }
    }

    /// `verifier` with the test token `test-owner`.
    pub fn for_tests(verifier: AuthVerifier) -> (v: AuthVerifier)
        ensures
            v.tenant_id == verifier.tenant_id,
            v.client_id == verifier.client_id,
            v.discovery_url == verifier.discovery_url,
            v.test_token matches Some(t) && t@ == "test-owner"@,
    {
        AuthVerifier { test_token: Some("test-owner".to_owned()), ..verifier }
    }

    /// The identity of a test token, when `token` is accepted as one. The
    /// `test-owner-` prefix is honoured in debug builds only.
    pub fn test_subject(&self, token: &str, debug_build: bool) -> (r: Option<String>)
        ensures
            match r {
                Some(oid) => accepts_as_test(self.test_token, token@, debug_build) && oid@ == test_identity(token@),
                None => !accepts_as_test(self.test_token, token@, debug_build),
            },
    {
        let debug_prefix = debug_build && str_has_prefix(token, "test-owner-");
        let accepted = match &self.test_token {
            Some(t) => str_eq(t.as_str(), token) || debug_prefix,
            None => false,
        };
        if !accepted {
            return None;
        }
        if str_eq(token, "test-owner") {
            Some("test-owner-oid".to_owned())
        } else {
            let mut oid = token.to_owned();
            oid.append("-oid");
            Some(oid)
        }
    }

    /// The signing key that must have signed `token`: the cached key named
    /// by the token's key id. The token must be an RS256 JWT.
    pub fn signing_key<'a>(&self, token: &str, cache: Option<&'a KeyCache>) -> (r: Result<&'a Jwk, AuthError>)
        ensures
            match r {
                Ok(k) => key_lookup(token@, cache) == Ok::<Jwk, AuthError>(*k),
                Err(e) => key_lookup(token@, cache) == Err::<Jwk, AuthError>(e),
            },
    {
        let c = match cache {
            Some(c) => c,
            None => return Err(AuthError::KeysUnavailable),
        };
        let (alg, kid) = match decode_token_header(token) {
            Some(h) => h,
            None => return Err(AuthError::InvalidToken),
        };
        proof {
            reveal_strlit("RS256");
        }
        if !str_eq(alg.as_str(), "RS256") {
            return Err(AuthError::WrongAlgorithm);
        }
        let kid = match kid {
            Some(k) => k,
            None => return Err(AuthError::MissingKeyId),
        };
        let mut i: usize = 0;
        while i < c.keys.len()
            invariant
                cache == Some(c),
                jwt_header(token@) == Some(("RS256"@, Some(kid@))),
                i <= c.keys@.len(),
                forall|j: int| 0 <= j < i ==> !(key_with_id(kid@))(#[trigger] c.keys@[j]),
            decreases c.keys@.len() - i,
        {
            if c.keys[i].kid == kid {
                proof {
                    lemma_first_match_at(c.keys@, key_with_id(kid@), i as int);
                }
                return Ok(&c.keys[i]);
            }
            i = i + 1;
        }
        proof {
            lemma_first_match_none(c.keys@, key_with_id(kid@));
        }
        Err(AuthError::UnknownKey)
    }

    /// The staff identity (`oid`) of a token whose signature and lifetime
    /// were checked, once its audience, tenant and issuer match.
    pub fn accept_claims(&self, cache: &KeyCache, claims: &TokenClaims) -> (r: Result<String, AuthError>)
        ensures
            if claims.aud@ != self.client_id@ {
                r == Err::<String, AuthError>(AuthError::WrongAudience)
            } else if claims.tid@ != self.tenant_id@ {
                r == Err::<String, AuthError>(AuthError::WrongTenant)
            } else if claims.iss@ != cache.issuer@ {
                r == Err::<String, AuthError>(AuthError::WrongIssuer)
            } else {
                r matches Ok(oid) && oid@ == claims.oid@
            },
    {
        if !(claims.aud == self.client_id) {
            return Err(AuthError::WrongAudience);
        }
        if !(claims.tid == self.tenant_id) {
            return Err(AuthError::WrongTenant);
        }
        if !(claims.iss == cache.issuer) {
            return Err(AuthError::WrongIssuer);
        }
        Ok(claims.oid.clone())
    }

    /// The staff identity (`oid`) that `token` proves. A test token is
    /// honoured as `test_subject` says; any other token must be an RS256 JWT
    /// signed with the cached key its key id names, whose signature, lifetime,
    /// audience and issuer `jsonwebtoken` accepts, and whose claims then pass
    /// `accept_claims`.
    pub fn verify(&self, token: &str, debug_build: bool, cache: Option<&KeyCache>) -> (r: Result<String, AuthError>)
        ensures
            accepts_as_test(self.test_token, token@, debug_build) ==> (r matches Ok(oid) && oid@ == test_identity(token@)),
            !accepts_as_test(self.test_token, token@, debug_build) ==> match key_lookup(token@, cache) {
                Err(e) => r == Err::<String, AuthError>(e),
                Ok(key) => if !usable_key(key) {
                    r == Err::<String, AuthError>(AuthError::BadKey)
                } else {
                    &&& r is Err ==> (r == Err::<String, AuthError>(AuthError::Rejected)
                        || r == Err::<String, AuthError>(AuthError::WrongTenant))
                    &&& r == Err::<String, AuthError>(AuthError::WrongTenant) ==>
                        (jwt_claims(token@) matches Some((_, tid, _, _)) && tid != self.tenant_id@)
                    &&& r matches Ok(oid) ==> (jwt_claims(token@) matches Some((aud, tid, iss, o)) && {
                        &&& aud == self.client_id@
                        &&& tid == self.tenant_id@
                        &&& iss == (cache->0).issuer@
                        &&& o == oid@
                    })
                },
            },
    {
        if let Some(oid) = self.test_subject(token, debug_build) {
            return Ok(oid);
        }
        let jwk = match self.signing_key(token, cache) {
            Ok(k) => k,
            Err(e) => return Err(e),
        };
        let c = match cache {
            Some(c) => c,
            None => return Err(AuthError::KeysUnavailable),
        };
        let key = match rsa_key(jwk.n.as_str(), jwk.e.as_str()) {
            Some(k) => k,
            None => return Err(AuthError::BadKey),
        };
        let claims = match decode_claims(token, &key, self.client_id.as_str(), c.issuer.as_str()) {
            Some(claims) => claims,
            None => return Err(AuthError::Rejected),
        };
        self.accept_claims(c, &claims)
    }
}

} // verus!
