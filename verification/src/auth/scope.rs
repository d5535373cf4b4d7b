//! Resource scopes: a namespace or an entity on it.

use vstd::prelude::*;

use crate::bytes;
use crate::bytes::ascii_lowercase;
use crate::domain::identifier;
use crate::domain::identifier::has_control;
use crate::text;
use crate::text::{is_well_escaped, percent_decode, split_text};
use crate::uri;
use crate::uri::{parse_uri, Uri, UriView};

verus! {

#[derive(Clone, Copy, Debug, PartialEq, Eq, Structural)]
pub enum ResourceScopeError {
    InvalidUri,
    InvalidPercentEncoding,
    InvalidPath,
}

pub open spec fn scope_error_text(error: ResourceScopeError) -> Seq<char> {
    match error {
        ResourceScopeError::InvalidUri => "the resource scope is not an absolute amqps URI"@,
        ResourceScopeError::InvalidPercentEncoding => {
            "the resource scope has malformed percent encoding"@
        },
        ResourceScopeError::InvalidPath => "the resource scope contains an unusable path segment"@,
    }
}

impl ResourceScopeError {
    pub fn describe(&self) -> (text: &'static str)
        ensures
            text@ == scope_error_text(*self),
    {
        match self {
            ResourceScopeError::InvalidUri => "the resource scope is not an absolute amqps URI",
            ResourceScopeError::InvalidPercentEncoding => {
                "the resource scope has malformed percent encoding"
            },
            ResourceScopeError::InvalidPath => {
                "the resource scope contains an unusable path segment"
            },
        }
    }
}

/// A namespace or entity audience, split on resource boundaries.
///
/// The path is kept as decoded segments, so that authorization is a hierarchy
/// comparison and never a string prefix comparison.
#[derive(Debug, PartialEq, Eq)]
pub struct ResourceScope {
    host: String,
    path: Vec<String>,
}

pub struct ScopeView {
    pub host: Seq<char>,
    pub path: Seq<Seq<char>>,
}

impl DeepView for ResourceScope {
    type V = ScopeView;

    closed spec fn deep_view(&self) -> ScopeView {
        ScopeView { host: self.host@, path: self.path.deep_view() }
    }
}

/// Whether a scope is another, or above it.
pub open spec fn covers(granted: ScopeView, requested: ScopeView) -> bool {
    &&& granted.host == requested.host
    &&& granted.path.len() <= requested.path.len()
    &&& forall|i: int|
        0 <= i < granted.path.len() ==> #[trigger] granted.path[i] == requested.path[i]
}

/// Whether a text can be a segment of a path.
pub open spec fn is_segment(s: Seq<char>) -> bool {
    &&& s.len() > 0
    &&& s != "."@
    &&& s != ".."@
    &&& forall|i: int| 0 <= i < s.len() ==> !identifier::is_control(#[trigger] s[i])
}

/// A segment of a path as it stands in a URI.
pub open spec fn decoded_segment(s: Seq<char>) -> Result<Seq<char>, ResourceScopeError> {
    if !text::well_escaped(bytes::utf8(s)) {
        Err(ResourceScopeError::InvalidPercentEncoding)
    } else {
        match text::percent_decoded(s) {
            Some(decoded) => if is_segment(decoded) && !decoded.contains('/') {
                Ok(decoded)
            } else {
                Err(ResourceScopeError::InvalidPath)
            },
            None => Err(ResourceScopeError::InvalidPath),
        }
    }
}

/// Segments as they stand in a URI, from `i` on, behind those before. The first
/// that is wrong decides.
pub open spec fn decoded_segments(
    segments: Seq<Seq<char>>,
    i: int,
    before: Seq<Seq<char>>,
) -> Result<Seq<Seq<char>>, ResourceScopeError>
    decreases segments.len() - i,
{
    if i < 0 || i >= segments.len() {
        Ok(before)
    } else {
        match decoded_segment(segments[i]) {
            Ok(segment) => decoded_segments(segments, i + 1, before.push(segment)),
            Err(error) => Err(error),
        }
    }
}

/// A path without the separator that it ends in.
pub open spec fn trimmed(path: Seq<char>) -> Seq<char> {
    if path.len() > 0 && path.last() == '/' {
        path.drop_last()
    } else {
        path
    }
}

/// The segments of a URI's path.
pub open spec fn path_segments(path: Seq<char>) -> Result<Seq<Seq<char>>, ResourceScopeError> {
    if path.len() > 0 && path[0] != '/' {
        Err(ResourceScopeError::InvalidPath)
    } else {
        let relative = if path.len() == 0 {
            path
        } else {
            trimmed(path.skip(1))
        };
        if relative.len() == 0 {
            Ok(Seq::empty())
        } else {
            decoded_segments(text::split(relative, '/'), 0, Seq::empty())
        }
    }
}

/// The scope that a URI names: an `amqps` URI with a host and a path, and
/// nothing else.
pub open spec fn scope_of(uri: UriView) -> Result<ScopeView, ResourceScopeError> {
    if uri.scheme != "amqps"@ || uri.username.len() > 0 || uri.password is Some || uri.port is Some
        || uri.query is Some || uri.fragment is Some || uri.host is None || uri.host->0.len() == 0 {
        Err(ResourceScopeError::InvalidUri)
    } else {
        match path_segments(uri.path) {
            Ok(path) => Ok(ScopeView { host: bytes::fold_text(uri.host->0), path }),
            Err(error) => Err(error),
        }
    }
}

/// The scope that a text names.
pub open spec fn parsed_scope(audience: Seq<char>) -> Result<ScopeView, ResourceScopeError> {
    match uri::uri_of(audience) {
        Some(uri) => scope_of(uri),
        None => Err(ResourceScopeError::InvalidUri),
    }
}

/// The scope of a namespace.
pub open spec fn namespace_scope(host: Seq<char>) -> Result<ScopeView, ResourceScopeError> {
    parsed_scope("amqps://"@ + host)
}

/// Whether every segment of a path that is not encoded is usable.
pub open spec fn are_segments(segments: Seq<Seq<char>>) -> bool {
    forall|i: int| 0 <= i < segments.len() ==> is_segment(#[trigger] segments[i])
}

/// The scope of an entity.
pub open spec fn entity_scope(host: Seq<char>, path: Seq<char>) -> Result<
    ScopeView,
    ResourceScopeError,
> {
    match namespace_scope(host) {
        Err(error) => Err(error),
        Ok(scope) => if are_segments(text::split(path, '/')) {
            Ok(ScopeView { path: text::split(path, '/'), ..scope })
        } else {
            Err(ResourceScopeError::InvalidPath)
        },
    }
}

pub open spec fn scope_agrees(
    read: Result<ResourceScope, ResourceScopeError>,
    expected: Result<ScopeView, ResourceScopeError>,
) -> bool {
    match read {
        Ok(scope) => expected == Ok::<ScopeView, ResourceScopeError>(scope.deep_view()),
        Err(error) => expected == Err::<ScopeView, ResourceScopeError>(error),
    }
}

fn usable_segment(segment: &str) -> (yes: bool)
    ensures
        yes == is_segment(segment@),
{
    if segment.unicode_len() == 0 {
        return false;
    }
    if bytes::same_text(segment, ".") || bytes::same_text(segment, "..") {
        return false;
    }
    !has_control(segment)
}

fn decode_path_segment(segment: &str) -> (decoded: Result<String, ResourceScopeError>)
    ensures
        match decoded {
            Ok(decoded) => decoded_segment(segment@) == Ok::<Seq<char>, ResourceScopeError>(
                decoded@,
            ),
            Err(error) => decoded_segment(segment@) == Err::<Seq<char>, ResourceScopeError>(error),
        },
{
    if !is_well_escaped(segment) {
        return Err(ResourceScopeError::InvalidPercentEncoding);
    }
    let decoded = match percent_decode(segment) {
        Some(decoded) => decoded,
        None => return Err(ResourceScopeError::InvalidPath),
    };
    let slash = text::find(decoded.as_str(), '/');
    proof {
        text::position_is_found(decoded@, '/', 0);
    }
    if !usable_segment(decoded.as_str()) || slash.is_some() {
        return Err(ResourceScopeError::InvalidPath);
    }
    Ok(decoded)
}

#[verifier::loop_isolation(false)]
fn decode_segments(segments: &Vec<String>) -> (decoded: Result<Vec<String>, ResourceScopeError>)
    ensures
        match decoded {
            Ok(decoded) => decoded_segments(segments.deep_view(), 0, Seq::empty()) == Ok::<
                Seq<Seq<char>>,
                ResourceScopeError,
            >(decoded.deep_view()),
            Err(error) => decoded_segments(segments.deep_view(), 0, Seq::empty()) == Err::<
                Seq<Seq<char>>,
                ResourceScopeError,
            >(error),
        },
{
    let ghost all = segments.deep_view();
    let ghost whole = decoded_segments(all, 0, Seq::empty());
    let mut decoded: Vec<String> = Vec::new();
    let mut i: usize = 0;
    proof {
        assert(decoded.deep_view() =~= Seq::<Seq<char>>::empty());
    }
    while i < segments.len()
        invariant
            i <= segments@.len() == all.len(),
            decoded_segments(all, i as int, decoded.deep_view()) == whole,
        decreases segments@.len() - i,
    {
        let ghost before = decoded.deep_view();
        proof {
            assert(all[i as int] == segments@[i as int]@);
        }
        match decode_path_segment(segments[i].as_str()) {
            Ok(segment) => {
                let ghost last = segment@;
                decoded.push(segment);
                proof {
                    assert(decoded.deep_view() =~= before.push(last));
                }
            },
            Err(error) => return Err(error),
        }
        i = i + 1;
    }
    Ok(decoded)
}

fn read_path(path: &str) -> (segments: Result<Vec<String>, ResourceScopeError>)
    ensures
        match segments {
            Ok(segments) => path_segments(path@) == Ok::<Seq<Seq<char>>, ResourceScopeError>(
                segments.deep_view(),
            ),
            Err(error) => path_segments(path@) == Err::<Seq<Seq<char>>, ResourceScopeError>(error),
        },
{
    let n: usize = path.unicode_len();
    let none: Vec<String> = Vec::new();
    proof {
        assert(none.deep_view() =~= Seq::<Seq<char>>::empty());
    }
    if n == 0 {
        return Ok(none);
    }
    if path.get_char(0) != '/' {
        return Err(ResourceScopeError::InvalidPath);
    }
    let end: usize = if n > 1 && path.get_char(n - 1) == '/' {
        n - 1
    } else {
        n
    };
    let relative = path.substring_char(1, end);
    proof {
        assert(relative@ =~= trimmed(path@.skip(1)));
    }
    if relative.unicode_len() == 0 {
        return Ok(none);
    }
    let segments = split_text(relative, '/');
    decode_segments(&segments)
}

impl ResourceScope {
    /// The scope that a URI names.
    pub fn from_uri(uri: &Uri) -> (scope: Result<ResourceScope, ResourceScopeError>)
        ensures
            scope_agrees(scope, scope_of(uri.deep_view())),
    {
        if !bytes::same_text(uri.scheme.as_str(), "amqps") || uri.username.as_str().unicode_len()
            > 0 || uri.password.is_some() || uri.port.is_some() || uri.query.is_some()
            || uri.fragment.is_some() {
            return Err(ResourceScopeError::InvalidUri);
        }
        let host = match &uri.host {
            Some(host) => host,
            None => return Err(ResourceScopeError::InvalidUri),
        };
        if host.as_str().unicode_len() == 0 {
            return Err(ResourceScopeError::InvalidUri);
        }
        let path = match read_path(uri.path.as_str()) {
            Ok(path) => path,
            Err(error) => return Err(error),
        };
        Ok(ResourceScope { host: ascii_lowercase(host.as_str()), path })
    }

    /// The scope that a text names.
    pub fn parse(audience: &str) -> (scope: Result<ResourceScope, ResourceScopeError>)
        ensures
            scope_agrees(scope, parsed_scope(audience@)),
    {
        match parse_uri(audience) {
            Ok(uri) => ResourceScope::from_uri(&uri),
            Err(_) => Err(ResourceScopeError::InvalidUri),
        }
    }

    /// The scope of a namespace.
    pub fn namespace(host: &str) -> (scope: Result<ResourceScope, ResourceScopeError>)
        ensures
            scope_agrees(scope, namespace_scope(host@)),
    {
        let mut audience = "amqps://".to_owned();
        audience.append(host);
        ResourceScope::parse(audience.as_str())
    }

    /// The scope of an entity.
    #[verifier::loop_isolation(false)]
    pub fn entity(host: &str, entity_path: &str) -> (scope: Result<
        ResourceScope,
        ResourceScopeError,
    >)
        ensures
            scope_agrees(scope, entity_scope(host@, entity_path@)),
    {
        let mut scope = match ResourceScope::namespace(host) {
            Ok(scope) => scope,
            Err(error) => return Err(error),
        };
        let segments = split_text(entity_path, '/');
        let ghost all = segments.deep_view();
        let mut i: usize = 0;
        while i < segments.len()
            invariant
                i <= segments@.len() == all.len(),
                forall|k: int| 0 <= k < i ==> is_segment(#[trigger] all[k]),
            decreases segments@.len() - i,
        {
            if !usable_segment(segments[i].as_str()) {
                proof {
                    assert(!is_segment(all[i as int]));
                }
                return Err(ResourceScopeError::InvalidPath);
            }
            proof {
                assert(all[i as int] == segments@[i as int]@);
            }
            i = i + 1;
        }
        scope.path = segments;
        Ok(scope)
    }

    /// Whether a scope is another, or above it.
    #[verifier::loop_isolation(false)]
    pub fn contains(&self, requested: &ResourceScope) -> (contained: bool)
        ensures
            contained == covers(self.deep_view(), requested.deep_view()),
    {
        let ghost granted = self.deep_view();
        let ghost wanted = requested.deep_view();
        if !bytes::same_text(self.host.as_str(), requested.host.as_str()) {
            return false;
        }
        if self.path.len() > requested.path.len() {
            return false;
        }
        let mut i: usize = 0;
        while i < self.path.len()
            invariant
                i <= self.path@.len() == granted.path.len(),
                requested.path@.len() == wanted.path.len(),
                self.path@.len() <= requested.path@.len(),
                forall|k: int| 0 <= k < i ==> #[trigger] granted.path[k] == wanted.path[k],
            decreases self.path@.len() - i,
        {
            proof {
                assert(granted.path[i as int] == self.path@[i as int]@);
                assert(wanted.path[i as int] == requested.path@[i as int]@);
            }
            if !bytes::same_text(self.path[i].as_str(), requested.path[i].as_str()) {
                return false;
            }
            i = i + 1;
        }
        true
    }

    pub fn host(&self) -> (host: &str)
        ensures
            host@ == self.deep_view().host,
    {
        self.host.as_str()
    }

    /// The segments of the path.
    pub fn path(&self) -> (path: &Vec<String>)
        ensures
            path.deep_view() == self.deep_view().path,
    {
        &self.path
    }

    pub fn copied(&self) -> (copy: ResourceScope)
        ensures
            copy.deep_view() == self.deep_view(),
    {
        let mut path: Vec<String> = Vec::new();
        let ghost all = self.path.deep_view();
        let mut i: usize = 0;
        while i < self.path.len()
            invariant
                i <= self.path@.len(),
                all == self.path.deep_view(),
                path.deep_view() =~= all.take(i as int),
            decreases self.path@.len() - i,
        {
            let ghost before = path.deep_view();
            path.push(self.path[i].clone());
            proof {
                assert(path.deep_view() =~= before.push(all[i as int]));
            }
            i = i + 1;
        }
        proof {
            assert(all.take(i as int) =~= all);
        }
        ResourceScope { host: self.host.clone(), path }
    }
}

impl Clone for ResourceScope {
    fn clone(&self) -> (copy: ResourceScope)
        ensures
            copy.deep_view() == self.deep_view(),
    {
        self.copied()
    }
}

// ---- laws ------------------------------------------------------------------

/// A scope covers itself.
pub proof fn a_scope_covers_itself(scope: ScopeView)
    ensures
        covers(scope, scope),
{
}

/// What covers a scope covers all that it covers.
pub proof fn coverage_is_transitive(above: ScopeView, scope: ScopeView, below: ScopeView)
    requires
        covers(above, scope),
        covers(scope, below),
    ensures
        covers(above, below),
{
    assert forall|i: int| 0 <= i < above.path.len() implies #[trigger] above.path[i]
        == below.path[i] by {
        assert(scope.path[i] == below.path[i]);
    }
}

/// Two scopes that cover each other are the same.
pub proof fn coverage_is_antisymmetric(one: ScopeView, other: ScopeView)
    requires
        covers(one, other),
        covers(other, one),
    ensures
        one == other,
{
    assert(one.path =~= other.path);
}

/// A namespace covers its entities, and nothing on another host.
pub proof fn a_namespace_covers_its_entities(namespace: ScopeView, entity: ScopeView)
    requires
        namespace.path.len() == 0,
    ensures
        covers(namespace, entity) == (namespace.host == entity.host),
{
}

/// A scope covers nothing beside it: what it covers has its path before it,
/// segment by segment.
pub proof fn siblings_are_not_covered(one: ScopeView, other: ScopeView)
    requires
        one.path.len() == other.path.len(),
        one.path != other.path,
    ensures
        !covers(one, other),
{
    if covers(one, other) {
        assert(one.path =~= other.path);
    }
}

} // verus!
