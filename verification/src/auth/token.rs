//! Shared-access tokens and plain credentials.

use vstd::prelude::*;

use crate::auth::grant::{AccessGrant, GrantView};
use crate::auth::policy;
use crate::auth::policy::{RuleView, SharedAccessPolicy, SharedAccessRule};
use crate::auth::scope;
use crate::auth::scope::{ResourceScope, ScopeView};
use crate::bytes;
use crate::text;
use crate::text::{is_well_escaped, parse_u64, percent_decode, push_decimal, split_text};
use hmac::Mac;

verus! {

#[derive(Clone, Copy, Debug, PartialEq, Eq)]
pub enum SasError {
    Malformed,
    UnknownField,
    DuplicateField,
    MissingField(&'static str),
    InvalidEncoding,
    InvalidExpiration,
    Expired,
    InvalidAudience,
    AudienceMismatch,
    RuleScopeMismatch,
    UnknownRule,
    InvalidSignature,
    InvalidCredential,
}

// ---- outside functions -----------------------------------------------------

/// Why a text is no base64.
#[verifier::external_type_specification]
#[verifier::external_body]
pub struct ExDecodeError(base64::DecodeError);

/// Why a key cannot be used.
#[verifier::external_type_specification]
#[verifier::external_body]
pub struct ExInvalidLength(hmac::digest::InvalidLength);

/// What the base64 text in `octets` encodes, in the standard alphabet with
/// canonical padding, or nothing where it is no such text.
pub uninterp spec fn base64_decoded(octets: Seq<u8>) -> Option<Seq<u8>>;

/// The HMAC-SHA256 of an input under a key.
pub uninterp spec fn hmac_sha256(key: Seq<u8>, input: Seq<u8>) -> Seq<u8>;

/// `base64::engine::general_purpose::STANDARD.decode`.
#[verifier::external_body]
pub(crate) fn base64_decode(octets: &[u8]) -> (decoded: Result<Vec<u8>, base64::DecodeError>)
    ensures
        match decoded {
            Ok(decoded) => base64_decoded(octets@) == Some(decoded@),
            Err(_) => base64_decoded(octets@) is None,
        },
{
    base64::Engine::decode(&base64::engine::general_purpose::STANDARD, octets)
}

/// `hmac::Hmac<sha2::Sha256>`, keyed by `Mac::new_from_slice`, fed by
/// `Mac::update` and ended by `Mac::finalize`. A key of any length will do.
#[verifier::external_body]
pub(crate) fn hmac_tag(key: &[u8], input: &[u8]) -> (tag: Result<
    Vec<u8>,
    hmac::digest::InvalidLength,
>)
    ensures
        tag matches Ok(tag) && tag@ == hmac_sha256(key@, input@),
{
    let mut hmac = hmac::Hmac::<sha2::Sha256>::new_from_slice(key)?;
    hmac.update(input);
    Ok(hmac.finalize().into_bytes().to_vec())
}

/// `hmac::Hmac<sha2::Sha256>`, keyed by `Mac::new_from_slice`, fed by
/// `Mac::update` and ended by `Mac::verify_slice`, which compares the whole of the
/// tag. A key of any length will do.
#[verifier::external_body]
pub(crate) fn hmac_verify(key: &[u8], input: &[u8], tag: &[u8]) -> (valid: Result<
    bool,
    hmac::digest::InvalidLength,
>)
    ensures
        valid matches Ok(valid) && valid == (hmac_sha256(key@, input@) == tag@),
{
    let mut hmac = hmac::Hmac::<sha2::Sha256>::new_from_slice(key)?;
    hmac.update(input);
    Ok(hmac.verify_slice(tag).is_ok())
}

// ---- tokens ----------------------------------------------------------------

/// The fields of a token as they stand in it.
pub struct FieldsView {
    pub sr: Option<Seq<char>>,
    pub sig: Option<Seq<char>>,
    pub se: Option<Seq<char>>,
    pub skn: Option<Seq<char>>,
}

/// A token with one more field.
pub open spec fn with_field(found: FieldsView, name: Seq<char>, value: Seq<char>) -> Result<
    FieldsView,
    SasError,
> {
    if name == "sr"@ {
        if found.sr is Some {
            Err(SasError::DuplicateField)
        } else {
            Ok(FieldsView { sr: Some(value), ..found })
        }
    } else if name == "sig"@ {
        if found.sig is Some {
            Err(SasError::DuplicateField)
        } else {
            Ok(FieldsView { sig: Some(value), ..found })
        }
    } else if name == "se"@ {
        if found.se is Some {
            Err(SasError::DuplicateField)
        } else {
            Ok(FieldsView { se: Some(value), ..found })
        }
    } else if name == "skn"@ {
        if found.skn is Some {
            Err(SasError::DuplicateField)
        } else {
            Ok(FieldsView { skn: Some(value), ..found })
        }
    } else {
        Err(SasError::UnknownField)
    }
}

/// A token with the fields from `i` on. The first that is wrong decides.
pub open spec fn with_fields(fields: Seq<Seq<char>>, i: int, found: FieldsView) -> Result<
    FieldsView,
    SasError,
>
    decreases fields.len() - i,
{
    if i < 0 || i >= fields.len() {
        Ok(found)
    } else {
        let field = fields[i];
        match text::position(field, '=', 0) {
            None => Err(SasError::Malformed),
            Some(at) => match with_field(found, field.take(at), field.skip(at + 1)) {
                Ok(found) => with_fields(fields, i + 1, found),
                Err(error) => Err(error),
            },
        }
    }
}

pub open spec fn no_fields() -> FieldsView {
    FieldsView { sr: None, sig: None, se: None, skn: None }
}

pub struct TokenView {
    pub encoded_resource: Seq<char>,
    pub resource: Seq<char>,
    pub signature: Seq<char>,
    pub expiry: u64,
    pub key_name: Seq<char>,
}

/// What a field of a token encodes.
pub open spec fn component(value: Seq<char>) -> Result<Seq<char>, SasError> {
    if !text::well_escaped(bytes::utf8(value)) {
        Err(SasError::InvalidEncoding)
    } else {
        match text::percent_decoded(value) {
            Some(decoded) => Ok(decoded),
            None => Err(SasError::InvalidEncoding),
        }
    }
}

/// The token that fields make. Of several things that are wrong with them, the
/// first in this order is told.
pub open spec fn token_from(found: FieldsView) -> Result<TokenView, SasError> {
    match found.sr {
        None => Err(SasError::MissingField("sr")),
        Some(sr) => match found.sig {
            None => Err(SasError::MissingField("sig")),
            Some(sig) => match component(sig) {
                Err(error) => Err(error),
                Ok(signature) => match found.se {
                    None => Err(SasError::MissingField("se")),
                    Some(se) => match text::parsed_u64(se) {
                        None => Err(SasError::InvalidExpiration),
                        Some(expiry) => match found.skn {
                            None => Err(SasError::MissingField("skn")),
                            Some(skn) => match component(skn) {
                                Err(error) => Err(error),
                                Ok(key_name) => match component(sr) {
                                    Err(error) => Err(error),
                                    Ok(resource) => Ok(
                                        TokenView {
                                            encoded_resource: sr,
                                            resource,
                                            signature,
                                            expiry,
                                            key_name,
                                        },
                                    ),
                                },
                            },
                        },
                    },
                },
            },
        },
    }
}

/// The token that a text is.
pub open spec fn token_of(token: Seq<char>) -> Result<TokenView, SasError> {
    let prefix = "SharedAccessSignature "@;
    if token.len() < prefix.len() || token.take(prefix.len() as int) != prefix {
        Err(SasError::Malformed)
    } else {
        match with_fields(text::split(token.skip(prefix.len() as int), '&'), 0, no_fields()) {
            Ok(found) => token_from(found),
            Err(error) => Err(error),
        }
    }
}

/// A shared-access token.
#[derive(Debug, PartialEq, Eq)]
pub struct ParsedToken {
    /// The resource as it stands in the token, which is what is signed.
    pub encoded_resource: String,
    pub resource: String,
    pub signature: String,
    pub expiry: u64,
    pub key_name: String,
}

impl DeepView for ParsedToken {
    type V = TokenView;

    open spec fn deep_view(&self) -> TokenView {
        TokenView {
            encoded_resource: self.encoded_resource@,
            resource: self.resource@,
            signature: self.signature@,
            expiry: self.expiry,
            key_name: self.key_name@,
        }
    }
}

struct Fields {
    sr: Option<String>,
    sig: Option<String>,
    se: Option<String>,
    skn: Option<String>,
}

impl DeepView for Fields {
    type V = FieldsView;

    closed spec fn deep_view(&self) -> FieldsView {
        FieldsView {
            sr: self.sr.deep_view(),
            sig: self.sig.deep_view(),
            se: self.se.deep_view(),
            skn: self.skn.deep_view(),
        }
    }
}

fn put(slot: &mut Option<String>, value: &str) -> (done: Result<(), SasError>)
    ensures
        match done {
            Ok(_) => old(slot).deep_view() is None && final(slot).deep_view() == Some(value@),
            Err(error) => old(slot).deep_view() is Some && error == SasError::DuplicateField,
        },
{
    if slot.is_some() {
        return Err(SasError::DuplicateField);
    }
    *slot = Some(value.to_owned());
    Ok(())
}

fn take_field(found: &mut Fields, name: &str, value: &str) -> (done: Result<(), SasError>)
    ensures
        match done {
            Ok(_) => with_field(old(found).deep_view(), name@, value@) == Ok::<
                FieldsView,
                SasError,
            >(final(found).deep_view()),
            Err(error) => with_field(old(found).deep_view(), name@, value@) == Err::<
                FieldsView,
                SasError,
            >(error),
        },
{
    if bytes::same_text(name, "sr") {
        put(&mut found.sr, value)
    } else if bytes::same_text(name, "sig") {
        put(&mut found.sig, value)
    } else if bytes::same_text(name, "se") {
        put(&mut found.se, value)
    } else if bytes::same_text(name, "skn") {
        put(&mut found.skn, value)
    } else {
        Err(SasError::UnknownField)
    }
}

#[verifier::loop_isolation(false)]
fn take_fields(fields: &Vec<String>) -> (found: Result<Fields, SasError>)
    ensures
        match found {
            Ok(found) => with_fields(fields.deep_view(), 0, no_fields()) == Ok::<
                FieldsView,
                SasError,
            >(found.deep_view()),
            Err(error) => with_fields(fields.deep_view(), 0, no_fields()) == Err::<
                FieldsView,
                SasError,
            >(error),
        },
{
    let ghost all = fields.deep_view();
    let mut found = Fields { sr: None, sig: None, se: None, skn: None };
    let mut i: usize = 0;
    while i < fields.len()
        invariant
            i <= fields@.len() == all.len(),
            with_fields(all, 0, no_fields()) == with_fields(all, i as int, found.deep_view()),
        decreases fields@.len() - i,
    {
        let field = fields[i].as_str();
        let ghost s = field@;
        proof {
            assert(all[i as int] == s);
        }
        let at: usize = match text::find(field, '=') {
            Some(at) => at,
            None => return Err(SasError::Malformed),
        };
        let n: usize = field.unicode_len();
        let name = field.substring_char(0, at);
        let value = field.substring_char(at + 1, n);
        proof {
            assert(name@ =~= s.take(at as int));
            assert(value@ =~= s.skip(at + 1));
        }
        match take_field(&mut found, name, value) {
            Ok(_) => {},
            Err(error) => return Err(error),
        }
        i = i + 1;
    }
    Ok(found)
}

fn decode_component(value: &str) -> (decoded: Result<String, SasError>)
    ensures
        match decoded {
            Ok(decoded) => component(value@) == Ok::<Seq<char>, SasError>(decoded@),
            Err(error) => component(value@) == Err::<Seq<char>, SasError>(error),
        },
{
    if !is_well_escaped(value) {
        return Err(SasError::InvalidEncoding);
    }
    match percent_decode(value) {
        Some(decoded) => Ok(decoded),
        None => Err(SasError::InvalidEncoding),
    }
}

impl ParsedToken {
    /// Reads a token.
    pub fn parse(token: &str) -> (parsed: Result<ParsedToken, SasError>)
        ensures
            match parsed {
                Ok(parsed) => token_of(token@) == Ok::<TokenView, SasError>(parsed.deep_view()),
                Err(error) => token_of(token@) == Err::<TokenView, SasError>(error),
            },
    {
        let prefix: &str = "SharedAccessSignature ";
        let n: usize = token.unicode_len();
        let m: usize = prefix.unicode_len();
        if n < m {
            return Err(SasError::Malformed);
        }
        let head = token.substring_char(0, m);
        proof {
            assert(head@ =~= token@.take(m as int));
        }
        if !bytes::same_text(head, prefix) {
            return Err(SasError::Malformed);
        }
        let rest = token.substring_char(m, n);
        proof {
            assert(rest@ =~= token@.skip(m as int));
        }
        let fields = split_text(rest, '&');
        let found = match take_fields(&fields) {
            Ok(found) => found,
            Err(error) => return Err(error),
        };
        let encoded_resource = match found.sr {
            Some(encoded) => encoded,
            None => return Err(SasError::MissingField("sr")),
        };
        let signature = match found.sig {
            Some(signature) => signature,
            None => return Err(SasError::MissingField("sig")),
        };
        let signature = match decode_component(signature.as_str()) {
            Ok(signature) => signature,
            Err(error) => return Err(error),
        };
        let encoded_expiry = match found.se {
            Some(expiry) => expiry,
            None => return Err(SasError::MissingField("se")),
        };
        let expiry: u64 = match parse_u64(encoded_expiry.as_str()) {
            Some(expiry) => expiry,
            None => return Err(SasError::InvalidExpiration),
        };
        let key_name = match found.skn {
            Some(key_name) => key_name,
            None => return Err(SasError::MissingField("skn")),
        };
        let key_name = match decode_component(key_name.as_str()) {
            Ok(key_name) => key_name,
            Err(error) => return Err(error),
        };
        let resource = match decode_component(encoded_resource.as_str()) {
            Ok(resource) => resource,
            Err(error) => return Err(error),
        };
        Ok(ParsedToken { encoded_resource, resource, signature, expiry, key_name })
    }
}

// ---- signatures ------------------------------------------------------------

/// What a token's signature signs: its encoded resource and its expiry, a line
/// each.
pub open spec fn string_to_sign(token: TokenView) -> Seq<u8> {
    bytes::utf8(token.encoded_resource) + seq![0x0au8] + text::decimal(token.expiry as nat)
}

/// Whether a signature is one by a rule's keys.
pub open spec fn signed_by(rule: RuleView, input: Seq<u8>, signature: Seq<u8>) -> bool {
    ||| hmac_sha256(bytes::utf8(rule.primary_key), input) == signature
    ||| rule.secondary_key matches Some(key) && hmac_sha256(bytes::utf8(key), input) == signature
}

/// What keys are compared by.
pub open spec fn credential_proof() -> Seq<u8> {
    bytes::utf8("switchyard-sasl-plain-credential"@)
}

/// Whether a key that is presented proves as much as another.
pub open spec fn credential_matches(expected: Seq<char>, presented: Seq<char>) -> bool {
    hmac_sha256(bytes::utf8(expected), credential_proof()) == hmac_sha256(
        bytes::utf8(presented),
        credential_proof(),
    )
}

/// Whether a key that is presented matches one of a rule's.
pub open spec fn is_key_of(rule: RuleView, presented: Seq<char>) -> bool {
    ||| credential_matches(rule.primary_key, presented)
    ||| rule.secondary_key matches Some(key) && credential_matches(key, presented)
}

/// How a plain credential is judged. Whether its name or its key was wrong is
/// not told.
pub open spec fn plain_judged(
    rules: Seq<RuleView>,
    key_name: Seq<char>,
    presented: Seq<char>,
) -> Result<GrantView, SasError> {
    match policy::rule_named(rules, key_name) {
        None => Err(SasError::InvalidCredential),
        Some(rule) => plain_granted(rule, key_name, is_key_of(rule, presented)),
    }
}

/// What a plain credential grants once its key was compared.
pub open spec fn plain_granted(rule: RuleView, key_name: Seq<char>, valid: bool) -> Result<
    GrantView,
    SasError,
> {
    if valid {
        Ok(
            GrantView {
                subject: key_name,
                scope: rule.scope,
                expires_at_epoch_seconds: u64::MAX,
                permissions: rule.permissions,
            },
        )
    } else {
        Err(SasError::InvalidCredential)
    }
}

/// The rule that a token's claim falls under: one of its name, on a scope that
/// covers the token's, where that covers what is requested.
pub open spec fn claim_judged(
    rules: Seq<RuleView>,
    token: TokenView,
    requested: ScopeView,
    token_scope: ScopeView,
) -> Result<RuleView, SasError> {
    if !scope::covers(token_scope, requested) {
        Err(SasError::AudienceMismatch)
    } else {
        match policy::rule_named(rules, token.key_name) {
            None => Err(SasError::UnknownRule),
            Some(rule) => if scope::covers(rule.scope, token_scope) {
                Ok(rule)
            } else {
                Err(SasError::RuleScopeMismatch)
            },
        }
    }
}

/// What a token grants once its signature was verified.
pub open spec fn token_granted(
    rule: RuleView,
    token: TokenView,
    token_scope: ScopeView,
    valid: bool,
) -> Result<GrantView, SasError> {
    if valid {
        Ok(
            GrantView {
                subject: token.key_name,
                scope: token_scope,
                expires_at_epoch_seconds: token.expiry,
                permissions: rule.permissions,
            },
        )
    } else {
        Err(SasError::InvalidSignature)
    }
}

/// How a token is judged.
pub open spec fn token_judged(
    rules: Seq<RuleView>,
    token: Seq<char>,
    audience: Seq<char>,
    now_epoch_seconds: u64,
) -> Result<GrantView, SasError> {
    match token_of(token) {
        Err(error) => Err(error),
        Ok(token) => if token.expiry <= now_epoch_seconds {
            Err(SasError::Expired)
        } else {
            match (scope::parsed_scope(audience), scope::parsed_scope(token.resource)) {
                (Ok(requested), Ok(token_scope)) => match claim_judged(
                    rules,
                    token,
                    requested,
                    token_scope,
                ) {
                    Err(error) => Err(error),
                    Ok(rule) => token_granted(
                        rule,
                        token,
                        token_scope,
                        base64_decoded(bytes::utf8(token.signature)) matches Some(signature)
                            && signed_by(rule, string_to_sign(token), signature),
                    ),
                },
                _ => Err(SasError::InvalidAudience),
            }
        },
    }
}

pub open spec fn granted(judged: Result<AccessGrant, SasError>, expected: Result<
    GrantView,
    SasError,
>) -> bool {
    match judged {
        Ok(grant) => expected == Ok::<GrantView, SasError>(grant.deep_view()),
        Err(error) => expected == Err::<GrantView, SasError>(error),
    }
}

fn signature_matches(key: &[u8], input: &[u8], signature: &[u8]) -> (valid: bool)
    ensures
        valid == (hmac_sha256(key@, input@) == signature@),
{
    match hmac_verify(key, input, signature) {
        Ok(valid) => valid,
        Err(_) => false,
    }
}

fn key_matches(expected: &[u8], presented: &[u8]) -> (valid: bool)
    ensures
        valid == (hmac_sha256(expected@, credential_proof()) == hmac_sha256(
            presented@,
            credential_proof(),
        )),
{
    let input = "switchyard-sasl-plain-credential".as_bytes();
    match hmac_tag(presented, input) {
        Ok(tag) => signature_matches(expected, input, tag.as_slice()),
        Err(_) => false,
    }
}

impl ParsedToken {
    fn string_to_sign(&self) -> (input: Vec<u8>)
        ensures
            input@ == string_to_sign(self.deep_view()),
    {
        let mut input: Vec<u8> = Vec::new();
        bytes::append(&mut input, self.encoded_resource.as_str().as_bytes());
        input.push(0x0a);
        push_decimal(&mut input, self.expiry);
        proof {
            assert(input@ =~= string_to_sign(self.deep_view()));
        }
        input
    }
}

impl SharedAccessRule {
    /// What a plain credential grants once its key was compared.
    pub fn grant_plain(&self, key_name: &str, valid: bool) -> (judged: Result<
        AccessGrant,
        SasError,
    >)
        ensures
            granted(judged, plain_granted(self.deep_view(), key_name@, valid)),
    {
        if !valid {
            return Err(SasError::InvalidCredential);
        }
        Ok(
            AccessGrant::make(
                key_name.to_owned(),
                self.scope().copied(),
                u64::MAX,
                self.permissions(),
            ),
        )
    }

    /// What a token grants once its signature was verified.
    pub fn grant_token(&self, token: ParsedToken, token_scope: ResourceScope, valid: bool) -> (judged:
        Result<AccessGrant, SasError>)
        ensures
            granted(
                judged,
                token_granted(
                    self.deep_view(),
                    token.deep_view(),
                    token_scope.deep_view(),
                    valid,
                ),
            ),
    {
        if !valid {
            return Err(SasError::InvalidSignature);
        }
        Ok(AccessGrant::make(token.key_name, token_scope, token.expiry, self.permissions()))
    }

    /// Whether a signature is one by this rule's keys. Both keys are tried, whatever
    /// the first one says.
    fn signed(&self, input: &[u8], signature: &[u8]) -> (valid: bool)
        ensures
            valid == signed_by(self.deep_view(), input@, signature@),
    {
        let primary: bool = signature_matches(self.primary_key().expose(), input, signature);
        let secondary: bool = match self.secondary_key() {
            Some(key) => signature_matches(key.expose(), input, signature),
            None => false,
        };
        primary || secondary
    }

    /// Whether a key is one of this rule's. Both keys are tried, whatever the first
    /// one says.
    fn accepts(&self, presented: &str) -> (valid: bool)
        ensures
            valid == is_key_of(self.deep_view(), presented@),
    {
        let octets = presented.as_bytes();
        let primary: bool = key_matches(self.primary_key().expose(), octets);
        let secondary: bool = match self.secondary_key() {
            Some(key) => key_matches(key.expose(), octets),
            None => false,
        };
        primary || secondary
    }
}

impl SharedAccessPolicy {
    /// Judges a key that is presented under a rule's name.
    pub fn authenticate_plain(&self, key_name: &str, presented_key: &str) -> (judged: Result<
        AccessGrant,
        SasError,
    >)
        ensures
            granted(judged, plain_judged(self.deep_view(), key_name@, presented_key@)),
    {
        match self.rule(key_name) {
            Some(rule) => rule.grant_plain(key_name, rule.accepts(presented_key)),
            None => Err(SasError::InvalidCredential),
        }
    }

    /// The rule that a token's claim falls under.
    pub fn judge_claim(
        &self,
        token: &ParsedToken,
        requested: &ResourceScope,
        token_scope: &ResourceScope,
    ) -> (rule: Result<&SharedAccessRule, SasError>)
        ensures
            match rule {
                Ok(rule) => claim_judged(
                    self.deep_view(),
                    token.deep_view(),
                    requested.deep_view(),
                    token_scope.deep_view(),
                ) == Ok::<RuleView, SasError>(rule.deep_view()),
                Err(error) => claim_judged(
                    self.deep_view(),
                    token.deep_view(),
                    requested.deep_view(),
                    token_scope.deep_view(),
                ) == Err::<RuleView, SasError>(error),
            },
    {
        if !token_scope.contains(requested) {
            return Err(SasError::AudienceMismatch);
        }
        match self.rule(token.key_name.as_str()) {
            None => Err(SasError::UnknownRule),
            Some(rule) => if rule.scope().contains(token_scope) {
                Ok(rule)
            } else {
                Err(SasError::RuleScopeMismatch)
            },
        }
    }

    /// Judges a shared-access token for an audience.
    ///
    /// What is signed retains the token's encoded resource: to encode the decoded
    /// one again can change its bytes, and invalidate a signature that a client
    /// generated correctly.
    pub fn validate_sas(
        &self,
        token: &str,
        requested_audience: &str,
        now_epoch_seconds: u64,
    ) -> (judged: Result<AccessGrant, SasError>)
        ensures
            granted(
                judged,
                token_judged(self.deep_view(), token@, requested_audience@, now_epoch_seconds),
            ),
    {
        let token = match ParsedToken::parse(token) {
            Ok(token) => token,
            Err(error) => return Err(error),
        };
        if token.expiry <= now_epoch_seconds {
            return Err(SasError::Expired);
        }
        let requested = match ResourceScope::parse(requested_audience) {
            Ok(requested) => requested,
            Err(_) => return Err(SasError::InvalidAudience),
        };
        let token_scope = match ResourceScope::parse(token.resource.as_str()) {
            Ok(token_scope) => token_scope,
            Err(_) => return Err(SasError::InvalidAudience),
        };
        let rule = match self.judge_claim(&token, &requested, &token_scope) {
            Ok(rule) => rule,
            Err(error) => return Err(error),
        };
        let valid: bool = match base64_decode(token.signature.as_str().as_bytes()) {
            Ok(signature) => rule.signed(token.string_to_sign().as_slice(), signature.as_slice()),
            Err(_) => false,
        };
        rule.grant_token(token, token_scope, valid)
    }
}

// ---- laws ------------------------------------------------------------------

/// A token grants only what its rule does: its scope lies within the rule's, it
/// covers the audience, and it has not expired.
pub proof fn tokens_stay_within_their_rules(
    rules: Seq<RuleView>,
    token: Seq<char>,
    audience: Seq<char>,
    now: u64,
)
    ensures
        token_judged(rules, token, audience, now) matches Ok(grant) ==> {
            &&& policy::rule_named(rules, grant.subject) matches Some(rule)
            &&& scope::covers(rule.scope, grant.scope)
            &&& grant.permissions == rule.permissions
            &&& now < grant.expires_at_epoch_seconds
            &&& scope::parsed_scope(audience) matches Ok(requested)
            &&& scope::covers(grant.scope, requested)
            &&& scope::covers(rule.scope, requested)
        },
{
    if let Ok(grant) = token_judged(rules, token, audience, now) {
        let rule = policy::rule_named(rules, grant.subject)->0;
        let requested = scope::parsed_scope(audience)->Ok_0;
        scope::coverage_is_transitive(rule.scope, grant.scope, requested);
    }
}

/// Either key of a rule is accepted under its name.
pub proof fn either_key_is_accepted(rules: Seq<RuleView>, name: Seq<char>, key: Seq<char>)
    requires
        policy::rule_named(rules, name) matches Some(rule) && (rule.primary_key == key
            || rule.secondary_key == Some(key)),
    ensures
        plain_judged(rules, name, key) is Ok,
{
}

/// A plain credential that is refused is refused in one way.
pub proof fn a_refusal_tells_nothing(rules: Seq<RuleView>, name: Seq<char>, key: Seq<char>)
    ensures
        plain_judged(rules, name, key) matches Err(error) ==> error == SasError::InvalidCredential,
{
}

/// A token that is refused only for its expiry was good before: time changes
/// nothing else.
pub proof fn only_expiry_depends_on_time(
    rules: Seq<RuleView>,
    token: Seq<char>,
    audience: Seq<char>,
    now: u64,
    later: u64,
)
    requires
        now <= later,
    ensures
        token_judged(rules, token, audience, later) == token_judged(rules, token, audience, now)
            || token_judged(rules, token, audience, later) == Err::<GrantView, SasError>(
            SasError::Expired,
        ),
{
}

} // verus!
