//! What roles, grants, credentials and tokens are for.

use vstd::prelude::*;

use crate::auth::grant;
use crate::auth::grant::GrantView;
use crate::auth::policy;
use crate::auth::policy::RuleView;
use crate::auth::role;
use crate::auth::role::{Permission, PermissionSet, Role};
use crate::auth::scope;
use crate::auth::scope::{ResourceScopeError, ScopeView};
use crate::auth::token;
use crate::auth::token::{FieldsView, SasError, TokenView};
use crate::bytes;
use crate::text;
use crate::uri::UriView;

verus! {

// ---- rights ----------------------------------------------------------------

/// A sender sends, a receiver listens and an auditor audits, and none of them does
/// anything else. Who administers a namespace does all but run the cluster, and who
/// administers the cluster does everything.
pub proof fn roles_do_what_they_are_for(permission: Permission)
    ensures
        role::role_allows(Role::Sender, permission) <==> permission is Send,
        role::role_allows(Role::Receiver, permission) <==> permission is Listen,
        role::role_allows(Role::Auditor, permission) <==> permission is Audit,
        role::role_allows(Role::NamespaceAdministrator, permission) <==> permission is Send
            || permission is Listen || permission is Manage || permission is Audit,
        role::role_allows(Role::ClusterAdministrator, permission),
{
}

/// The right to send allows to send and the right to listen to listen, and neither allows
/// anything else. The right to manage allows all three.
pub proof fn rights_allow_what_they_are_for(permission: Permission)
    ensures
        role::set_allows(PermissionSet(1), permission) <==> permission is Send,
        role::set_allows(PermissionSet(2), permission) <==> permission is Listen,
        role::set_allows(PermissionSet(4), permission) <==> permission is Send || permission
            is Listen || permission is Manage,
        !role::set_allows(PermissionSet(0), permission),
{
    assert(0u8 & 1 == 0 && 0u8 & 2 == 0 && 0u8 & 4 == 0) by (bit_vector);
    assert(1u8 & 1 == 1 && 1u8 & 2 == 0 && 1u8 & 4 == 0) by (bit_vector);
    assert(2u8 & 1 == 0 && 2u8 & 2 == 2 && 2u8 & 4 == 0) by (bit_vector);
    assert(4u8 & 1 == 0 && 4u8 & 2 == 0 && 4u8 & 4 == 4) by (bit_vector);
}

/// Whether a path begins with another, segment by segment.
pub open spec fn begins_with(path: Seq<Seq<char>>, start: Seq<Seq<char>>) -> bool {
    start.len() <= path.len() && path.take(start.len() as int) == start
}

/// A scope covers exactly what is on the same host with a path that begins with its own.
pub proof fn scopes_cover_what_lies_below(above: ScopeView, below: ScopeView)
    ensures
        scope::covers(above, below) <==> above.host == below.host && begins_with(
            below.path,
            above.path,
        ),
{
    if scope::covers(above, below) {
        assert(below.path.take(above.path.len() as int) =~= above.path);
    }
    if begins_with(below.path, above.path) {
        assert forall|i: int| 0 <= i < above.path.len() implies #[trigger] above.path[i]
            == below.path[i] by {
            assert(below.path.take(above.path.len() as int)[i] == below.path[i]);
        }
    }
}

/// A grant allows something exactly when it has not expired, it is on the scope that it
/// was given for or below, and it is among its rights.
pub proof fn grants_allow_what_they_were_given_for(
    given: GrantView,
    requested: ScopeView,
    permission: Permission,
    now: u64,
)
    ensures
        grant::grant_allows(given, requested, permission, now) <==> {
            &&& given.expires_at_epoch_seconds > now
            &&& given.scope.host == requested.host
            &&& begins_with(requested.path, given.scope.path)
            &&& role::set_allows(given.permissions, permission)
        },
{
    scopes_cover_what_lies_below(given.scope, requested);
}

// ---- plain credentials -----------------------------------------------------

/// Whether a key proves as much as a stored one.
pub open spec fn proves(stored: Seq<char>, presented: Seq<char>) -> bool {
    token::hmac_sha256(
        bytes::utf8(stored),
        bytes::utf8("switchyard-sasl-plain-credential"@),
    ) == token::hmac_sha256(
        bytes::utf8(presented),
        bytes::utf8("switchyard-sasl-plain-credential"@),
    )
}

/// A name and a key are accepted exactly when there is a rule of that name and the key
/// proves as much as one of its two. What is granted is what the rule says, without an
/// end.
pub proof fn credentials_are_accepted_by_their_rule(
    rules: Seq<RuleView>,
    name: Seq<char>,
    presented: Seq<char>,
)
    ensures
        match policy::rule_named(rules, name) {
            None => token::plain_judged(rules, name, presented) == Err::<GrantView, SasError>(
                SasError::InvalidCredential,
            ),
            Some(rule) => {
                let good = proves(rule.primary_key, presented) || (rule.secondary_key is Some
                    && proves(rule.secondary_key->Some_0, presented));
                if good {
                    &&& token::plain_judged(rules, name, presented) matches Ok(given)
                    &&& given.subject == name
                    &&& given.scope == rule.scope
                    &&& given.permissions == rule.permissions
                    &&& given.expires_at_epoch_seconds == 0xffff_ffff_ffff_ffff
                } else {
                    token::plain_judged(rules, name, presented) == Err::<GrantView, SasError>(
                        SasError::InvalidCredential,
                    )
                }
            },
        },
{
}

// ---- tokens ----------------------------------------------------------------

/// What the signature of a token is made over: the resource as it stands in the token, a
/// line feed, and the time at which the token expires.
pub open spec fn signed_text(encoded_resource: Seq<char>, expiry: u64) -> Seq<u8> {
    bytes::utf8(encoded_resource) + seq![10u8] + text::decimal(expiry as nat)
}

/// Whether a key signed a token.
pub open spec fn has_signed(key: Seq<char>, read: TokenView) -> bool {
    token::base64_decoded(bytes::utf8(read.signature)) == Some(
        token::hmac_sha256(
            bytes::utf8(key),
            signed_text(read.encoded_resource, read.expiry),
        ),
    )
}

/// A token is accepted exactly when it can be read, has not expired, is for the audience
/// or what lies above it, and was signed by a key of the rule that it names on the scope of
/// that rule or below. What is granted is on the scope of the token, until it expires, and
/// as much as the rule says.
pub proof fn tokens_are_accepted_by_their_rule(
    rules: Seq<RuleView>,
    presented: Seq<char>,
    audience: Seq<char>,
    now: u64,
    read: TokenView,
    requested: ScopeView,
    own: ScopeView,
    rule: RuleView,
)
    requires
        token::token_of(presented) == Ok::<TokenView, SasError>(read),
        scope::parsed_scope(audience) == Ok::<ScopeView, ResourceScopeError>(requested),
        scope::parsed_scope(read.resource) == Ok::<ScopeView, ResourceScopeError>(own),
        policy::rule_named(rules, read.key_name) == Some(rule),
    ensures
        ({
            let judged = token::token_judged(rules, presented, audience, now);
            let refused = |error: SasError| judged == Err::<GrantView, SasError>(error);
            let signed = has_signed(rule.primary_key, read) || (rule.secondary_key is Some
                && has_signed(rule.secondary_key->Some_0, read));
            if read.expiry <= now {
                refused(SasError::Expired)
            } else if !scope::covers(own, requested) {
                refused(SasError::AudienceMismatch)
            } else if !scope::covers(rule.scope, own) {
                refused(SasError::RuleScopeMismatch)
            } else if !signed {
                refused(SasError::InvalidSignature)
            } else {
                &&& judged matches Ok(given)
                &&& given.subject == read.key_name
                &&& given.scope == own
                &&& given.permissions == rule.permissions
                &&& given.expires_at_epoch_seconds == read.expiry
            }
        }),
{
}

/// A token of a rule that is not there, or for a resource that is none, is refused.
pub proof fn other_tokens_are_refused(
    rules: Seq<RuleView>,
    presented: Seq<char>,
    audience: Seq<char>,
    now: u64,
)
    ensures
        ({
            let judged = token::token_judged(rules, presented, audience, now);
            let refused = |error: SasError| judged == Err::<GrantView, SasError>(error);
            match token::token_of(presented) {
                Err(error) => refused(error),
                Ok(read) => read.expiry > now ==> {
                    &&& scope::parsed_scope(audience) is Err || scope::parsed_scope(
                        read.resource,
                    ) is Err ==> refused(SasError::InvalidAudience)
                    &&& scope::parsed_scope(audience) matches Ok(requested)
                        ==> (scope::parsed_scope(read.resource) matches Ok(own)
                        ==> scope::covers(own, requested) && policy::rule_named(
                        rules,
                        read.key_name,
                    ) is None ==> refused(SasError::UnknownRule))
                },
            }
        }),
{
}

/// What stands before a separator comes off first.
proof fn the_first_part_comes_off(a: Seq<char>, b: Seq<char>, separator: char)
    requires
        !a.contains(separator),
    ensures
        text::split(a + seq![separator] + b, separator) == seq![a] + text::split(b, separator),
        text::split(a, separator) == seq![a],
        text::position(a + seq![separator] + b, separator, 0) == Some(a.len() as int),
        (a + seq![separator] + b).take(a.len() as int) == a,
        (a + seq![separator] + b).skip(a.len() as int + 1) == b,
{
    let whole = a + seq![separator] + b;
    text::position_is_found(whole, separator, 0);
    text::position_is_found(a, separator, 0);
    assert(whole[a.len() as int] == separator);
    assert forall|i: int| 0 <= i < a.len() implies whole[i] != separator by {
        assert(a.contains(a[i]));
    }
    if let Some(i) = text::position(a, separator, 0) {
        assert(a.contains(a[i]));
    }
    assert(whole.take(a.len() as int) =~= a);
    assert(whole.skip(a.len() as int + 1) =~= b);
}

/// A token as its issuer writes it.
pub open spec fn written(
    sr: Seq<char>,
    sig: Seq<char>,
    se: Seq<char>,
    skn: Seq<char>,
) -> Seq<char> {
    "SharedAccessSignature "@ + (("sr"@ + seq!['='] + sr) + seq!['&'] + (("sig"@ + seq!['='] + sig)
        + seq!['&'] + (("se"@ + seq!['='] + se) + seq!['&'] + ("skn"@ + seq!['='] + skn))))
}

/// The four parts of a token are read as they were written.
pub proof fn written_tokens_are_read(
    sr: Seq<char>,
    sig: Seq<char>,
    se: Seq<char>,
    skn: Seq<char>,
)
    requires
        !sr.contains('&'),
        !sig.contains('&'),
        !se.contains('&'),
        !skn.contains('&'),
    ensures
        ({
            let read = token::token_of(written(sr, sig, se, skn));
            let resource = token::component(sr);
            let signature = token::component(sig);
            let name = token::component(skn);
            &&& resource is Ok && signature is Ok && name is Ok && text::parsed_u64(se) is Some
                ==> read == Ok::<TokenView, SasError>(
                TokenView {
                    encoded_resource: sr,
                    resource: resource->Ok_0,
                    signature: signature->Ok_0,
                    expiry: text::parsed_u64(se)->Some_0,
                    key_name: name->Ok_0,
                },
            )
            &&& signature is Ok && text::parsed_u64(se) is None ==> read == Err::<
                TokenView,
                SasError,
            >(SasError::InvalidExpiration)
        }),
{
    fields_come_apart(sr, sig, se, skn);
    fields_are_collected(sr, sig, se, skn);
}

/// A field as it stands in a token.
spec fn field(name: Seq<char>, value: Seq<char>) -> Seq<char> {
    name + seq!['='] + value
}

/// The fields of a token.
spec fn fields(sr: Seq<char>, sig: Seq<char>, se: Seq<char>, skn: Seq<char>) -> Seq<Seq<char>> {
    seq![field("sr"@, sr), field("sig"@, sig), field("se"@, se), field("skn"@, skn)]
}

/// A separator that is in neither part of a field is not in the field.
proof fn fields_hold_no_separator(name: Seq<char>, value: Seq<char>)
    requires
        !name.contains('&'),
        !value.contains('&'),
    ensures
        !field(name, value).contains('&'),
{
    let whole = field(name, value);
    if whole.contains('&') {
        let i = choose|i: int| 0 <= i < whole.len() && whole[i] == '&';
        if i < name.len() {
            assert(name[i] == '&');
        } else if i > name.len() {
            assert(value[i - name.len() - 1] == '&');
        }
    }
}

/// The names of fields hold no separators.
proof fn names_hold_no_separators()
    ensures
        !"sr"@.contains('&') && !"sr"@.contains('='),
        !"sig"@.contains('&') && !"sig"@.contains('='),
        !"se"@.contains('&') && !"se"@.contains('='),
        !"skn"@.contains('&') && !"skn"@.contains('='),
        "sr"@ != "sig"@ && "sr"@ != "se"@ && "sr"@ != "skn"@,
        "sig"@ != "se"@ && "sig"@ != "skn"@ && "se"@ != "skn"@,
{
    reveal_strlit("sr");
    reveal_strlit("sig");
    reveal_strlit("se");
    reveal_strlit("skn");
    assert("se"@[1] != "sr"@[1]);
    assert("skn"@[1] != "sig"@[1]);
    assert("sr"@.len() == 2 && "se"@.len() == 2 && "sig"@.len() == 3 && "skn"@.len() == 3);
}

proof fn fields_come_apart(sr: Seq<char>, sig: Seq<char>, se: Seq<char>, skn: Seq<char>)
    requires
        !sr.contains('&'),
        !sig.contains('&'),
        !se.contains('&'),
        !skn.contains('&'),
    ensures
        ({
            let prefix = "SharedAccessSignature "@;
            let whole = written(sr, sig, se, skn);
            &&& whole.len() >= prefix.len()
            &&& whole.take(prefix.len() as int) == prefix
            &&& text::split(whole.skip(prefix.len() as int), '&') == fields(sr, sig, se, skn)
        }),
{
    let prefix = "SharedAccessSignature "@;
    let a = field("sr"@, sr);
    let b = field("sig"@, sig);
    let d = field("se"@, se);
    let e = field("skn"@, skn);
    names_hold_no_separators();
    fields_hold_no_separator("sr"@, sr);
    fields_hold_no_separator("sig"@, sig);
    fields_hold_no_separator("se"@, se);
    fields_hold_no_separator("skn"@, skn);
    four_parts_come_apart(a, b, d, e);
    let all = joined(a, joined(b, joined(d, e)));
    assert(written(sr, sig, se, skn) == prefix + all) by {
        reveal(joined);
    }
    the_start_comes_off(prefix, all);
}

#[verifier::opaque]
spec fn joined(a: Seq<char>, b: Seq<char>) -> Seq<char> {
    a + seq!['&'] + b
}

proof fn the_start_comes_off(start: Seq<char>, rest: Seq<char>)
    ensures
        (start + rest).len() >= start.len(),
        (start + rest).take(start.len() as int) == start,
        (start + rest).skip(start.len() as int) == rest,
{
    assert((start + rest).take(start.len() as int) =~= start);
    assert((start + rest).skip(start.len() as int) =~= rest);
}

proof fn four_parts_come_apart(a: Seq<char>, b: Seq<char>, d: Seq<char>, e: Seq<char>)
    requires
        !a.contains('&'),
        !b.contains('&'),
        !d.contains('&'),
        !e.contains('&'),
    ensures
        text::split(joined(a, joined(b, joined(d, e))), '&') == seq![a, b, d, e],
{
    the_last_part_stands_alone(e);
    one_part_more(d, e, seq![e]);
    one_part_more(b, joined(d, e), seq![d] + seq![e]);
    one_part_more(a, joined(b, joined(d, e)), seq![b] + (seq![d] + seq![e]));
    let parts = seq![a] + (seq![b] + (seq![d] + seq![e]));
    assert(text::split(joined(a, joined(b, joined(d, e))), '&') == parts);
    four_in_a_row(a, b, d, e);
}

proof fn four_in_a_row<T>(a: T, b: T, d: T, e: T)
    ensures
        seq![a] + (seq![b] + (seq![d] + seq![e])) == seq![a, b, d, e],
{
    assert(seq![a] + (seq![b] + (seq![d] + seq![e])) =~= seq![a, b, d, e]);
}

proof fn the_last_part_stands_alone(e: Seq<char>)
    requires
        !e.contains('&'),
    ensures
        text::split(e, '&') == seq![e],
{
    the_first_part_comes_off(e, Seq::empty(), '&');
}

proof fn one_part_more(a: Seq<char>, rest: Seq<char>, parts: Seq<Seq<char>>)
    requires
        !a.contains('&'),
        text::split(rest, '&') == parts,
    ensures
        text::split(joined(a, rest), '&') == seq![a] + parts,
{
    reveal(joined);
    the_first_part_comes_off(a, rest, '&');
}

/// One field is read, and then the rest.
proof fn one_field_is_read(
    parts: Seq<Seq<char>>,
    i: int,
    found: FieldsView,
    name: Seq<char>,
    value: Seq<char>,
    now: FieldsView,
)
    requires
        0 <= i < parts.len(),
        parts[i] == field(name, value),
        !name.contains('='),
        token::with_field(found, name, value) == Ok::<FieldsView, SasError>(now),
    ensures
        token::with_fields(parts, i, found) == token::with_fields(parts, i + 1, now),
{
    the_first_part_comes_off(name, value, '=');
}

proof fn fields_are_collected(sr: Seq<char>, sig: Seq<char>, se: Seq<char>, skn: Seq<char>)
    ensures
        token::with_fields(fields(sr, sig, se, skn), 0, token::no_fields()) == Ok::<
            FieldsView,
            SasError,
        >(FieldsView { sr: Some(sr), sig: Some(sig), se: Some(se), skn: Some(skn) }),
{
    let parts = fields(sr, sig, se, skn);
    let none = token::no_fields();
    let one = FieldsView { sr: Some(sr), ..none };
    let two = FieldsView { sig: Some(sig), ..one };
    let three = FieldsView { se: Some(se), ..two };
    let four = FieldsView { skn: Some(skn), ..three };
    names_hold_no_separators();
    one_field_is_read(parts, 0, none, "sr"@, sr, one);
    one_field_is_read(parts, 1, one, "sig"@, sig, two);
    one_field_is_read(parts, 2, two, "se"@, se, three);
    one_field_is_read(parts, 3, three, "skn"@, skn, four);
    assert(token::with_fields(parts, 4, four) == Ok::<FieldsView, SasError>(four));
}

/// A field of a token is taken once under its name. A second one, and one under any other
/// name, is refused.
pub proof fn fields_are_taken_once(found: FieldsView, name: Seq<char>, value: Seq<char>)
    ensures
        ({
            let taken = token::with_field(found, name, value);
            let twice = taken == Err::<FieldsView, SasError>(SasError::DuplicateField);
            &&& name == "sr"@ ==> if found.sr is Some {
                twice
            } else {
                taken matches Ok(now) && now.sr == Some(value) && now.sig == found.sig && now.se
                    == found.se && now.skn == found.skn
            }
            &&& name == "sig"@ ==> if found.sig is Some {
                twice
            } else {
                taken matches Ok(now) && now.sig == Some(value) && now.sr == found.sr && now.se
                    == found.se && now.skn == found.skn
            }
            &&& name == "se"@ ==> if found.se is Some {
                twice
            } else {
                taken matches Ok(now) && now.se == Some(value) && now.sr == found.sr && now.sig
                    == found.sig && now.skn == found.skn
            }
            &&& name == "skn"@ ==> if found.skn is Some {
                twice
            } else {
                taken matches Ok(now) && now.skn == Some(value) && now.sr == found.sr && now.sig
                    == found.sig && now.se == found.se
            }
            &&& name != "sr"@ && name != "sig"@ && name != "se"@ && name != "skn"@ ==> taken
                == Err::<FieldsView, SasError>(SasError::UnknownField)
        }),
{
    reveal_strlit("sr");
    reveal_strlit("sig");
    reveal_strlit("se");
    reveal_strlit("skn");
    assert("se"@[1] != "sr"@[1]);
    assert("skn"@[1] != "sig"@[1]);
}

// ---- scopes ----------------------------------------------------------------

/// Only an `amqps` address with a host and a path names a scope: one with a user, a
/// password, a port, a query or a fragment does not.
pub proof fn plain_addresses_name_scopes(address: UriView)
    ensures
        ({
            let plain = address.scheme == "amqps"@ && address.username.len() == 0
                && address.password is None && address.port is None && address.query is None
                && address.fragment is None && address.host is Some
                && address.host->Some_0.len() > 0;
            &&& !plain ==> scope::scope_of(address) == Err::<ScopeView, ResourceScopeError>(
                ResourceScopeError::InvalidUri,
            )
            &&& plain && address.path.len() == 0 ==> scope::scope_of(address) == Ok::<
                ScopeView,
                ResourceScopeError,
            >(
                ScopeView {
                    host: bytes::fold_text(address.host->Some_0),
                    path: Seq::<Seq<char>>::empty(),
                },
            )
            &&& scope::scope_of(address) matches Ok(named) ==> plain && named.host
                == bytes::fold_text(address.host->Some_0)
        }),
{
}

/// Whether a text may stand between two separators: it says something, does not lead
/// elsewhere, and has nothing in it that cannot be seen.
pub open spec fn is_usable(segment: Seq<char>) -> bool {
    &&& segment.len() > 0
    &&& segment != "."@
    &&& segment != ".."@
    &&& forall|i: int|
        0 <= i < segment.len() ==> !crate::domain::identifier::is_control(#[trigger] segment[i])
}

/// What is read out of an address is usable between two separators, and holds none.
pub proof fn segments_are_usable(
    segments: Seq<Seq<char>>,
    i: int,
    before: Seq<Seq<char>>,
    k: int,
)
    requires
        0 <= i,
        scope::decoded_segments(segments, i, before) matches Ok(path) && before.len() <= k
            < path.len(),
    ensures
        ({
            let segment = scope::decoded_segments(segments, i, before)->Ok_0[k];
            is_usable(segment) && !segment.contains('/')
        }),
    decreases segments.len() - i,
{
    if i < segments.len() {
        let segment = scope::decoded_segment(segments[i])->Ok_0;
        segments_come_behind(segments, i + 1, before.push(segment));
        if k > before.len() {
            segments_are_usable(segments, i + 1, before.push(segment), k);
        }
    }
}

proof fn segments_come_behind(segments: Seq<Seq<char>>, i: int, before: Seq<Seq<char>>)
    requires
        0 <= i,
        scope::decoded_segments(segments, i, before) is Ok,
    ensures
        ({
            let path = scope::decoded_segments(segments, i, before)->Ok_0;
            &&& path.len() >= before.len()
            &&& forall|k: int| 0 <= k < before.len() ==> #[trigger] path[k] == before[k]
            &&& i <= segments.len() ==> path.len() == before.len() + (segments.len() - i)
        }),
    decreases segments.len() - i,
{
    if i < segments.len() {
        let segment = scope::decoded_segment(segments[i])->Ok_0;
        segments_come_behind(segments, i + 1, before.push(segment));
    }
}

} // verus!
