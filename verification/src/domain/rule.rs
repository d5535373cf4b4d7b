//! Subscription rules and the correlation filter.

use vstd::prelude::*;

use crate::bytes;
use crate::domain::identifier::RuleName;
use crate::domain::time::Timestamp;
use crate::domain::wire::{write_block, Wire};

verus! {

/// Name of the match-all rule created atomically with every subscription.
pub const DEFAULT_RULE_NAME: &'static str = "$default";

/// Maximum rules retained below one subscription. The bound keeps fanout work
/// deterministic and finite.
pub const MAX_SUBSCRIPTION_RULES: usize = 2_000;

/// Largest page one replicated list command returns.
pub const MAX_RULE_PAGE: u32 = 100;

/// A filter definition cannot exceed the same logical size as one Standard
/// message. This bounds both replicated commands and publish-time evaluation.
pub const MAX_CORRELATION_FILTER_BYTES: usize = 256 * 1024;

pub const MAX_CORRELATION_VALUE_BYTES: usize = MAX_CORRELATION_FILTER_BYTES;

#[derive(Clone, Copy, Debug, PartialEq, Eq, Structural)]
pub enum RuleConfigError {
    SessionIdNotSupported,
    EmptyCorrelationFilter,
    DuplicateApplicationProperty,
    CorrelationFilterTooLarge { bytes: usize, maximum: usize },
    CorrelationValueTooLarge { bytes: usize, maximum: usize },
}

/// Canonical encoding of one scalar application-property value.
///
/// The protocol adapter owns the encoding because the domain deliberately has
/// no AMQP dependency. The encoding must include the scalar type as well as its
/// value: an AMQP `int` and `long` containing the same number are distinct
/// correlation values. Equality in the state machine is exact byte equality.
#[derive(Debug, PartialEq, Eq, PartialOrd, Ord)]
pub struct CorrelationValue {
    encoding: Vec<u8>,
}

impl DeepView for CorrelationValue {
    type V = Seq<u8>;

    closed spec fn deep_view(&self) -> Seq<u8> {
        self.encoding@
    }
}

impl Clone for CorrelationValue {
    fn clone(&self) -> (copy: Self)
        ensures
            copy.deep_view() == self.deep_view(),
    {
        CorrelationValue { encoding: bytes::copy_bytes(self.encoding.as_slice()) }
    }
}

impl CorrelationValue {
    pub fn new(bytes: Vec<u8>) -> (value: Result<CorrelationValue, RuleConfigError>)
        ensures
            match value {
                Ok(value) => bytes@.len() <= MAX_CORRELATION_VALUE_BYTES && value.deep_view()
                    == bytes@,
                Err(error) => bytes@.len() > MAX_CORRELATION_VALUE_BYTES && error
                    == (RuleConfigError::CorrelationValueTooLarge {
                    bytes: bytes@.len() as usize,
                    maximum: MAX_CORRELATION_VALUE_BYTES,
                }),
            },
    {
        if bytes.len() > MAX_CORRELATION_VALUE_BYTES {
            return Err(
                RuleConfigError::CorrelationValueTooLarge {
                    bytes: bytes.len(),
                    maximum: MAX_CORRELATION_VALUE_BYTES,
                },
            );
        }
        Ok(CorrelationValue { encoding: bytes })
    }

    pub fn as_bytes(&self) -> (bytes: &[u8])
        ensures
            bytes@ == self.deep_view(),
    {
        self.encoding.as_slice()
    }
}

/// The order of property names: that of their UTF-8 encodings.
pub open spec fn name_lt(a: Seq<char>, b: Seq<char>) -> bool {
    bytes::lex_lt(bytes::utf8(a), bytes::utf8(b))
}

/// One application property: its name and the encoding of its value.
pub type Property = (Seq<char>, Seq<u8>);

/// Names stand in ascending order, so none occurs twice.
pub open spec fn ascending(s: Seq<Property>) -> bool {
    forall|i: int, j: int|
        #![trigger s[i], s[j]]
        0 <= i < j < s.len() ==> name_lt(s[i].0, s[j].0)
}

/// How many of the first names sort before `name`.
pub open spec fn rank(s: Seq<Property>, name: Seq<char>) -> int
    decreases s.len(),
{
    if s.len() == 0 || !name_lt(s[0].0, name) {
        0
    } else {
        1 + rank(s.skip(1), name)
    }
}

/// `s` with `name` bound to `value`, in place of what it was bound to.
pub open spec fn bind(s: Seq<Property>, name: Seq<char>, value: Seq<u8>) -> Seq<Property> {
    let at = rank(s, name);
    if at < s.len() && s[at].0 == name {
        s.update(at, (name, value))
    } else {
        s.insert(at, (name, value))
    }
}

/// Whether `name` is bound at its rank.
pub open spec fn bound(s: Seq<Property>, name: Seq<char>) -> bool {
    rank(s, name) < s.len() && s[rank(s, name)].0 == name
}

pub(crate) proof fn rank_properties(s: Seq<Property>, name: Seq<char>)
    ensures
        0 <= rank(s, name) <= s.len(),
        forall|i: int| 0 <= i < rank(s, name) ==> name_lt((#[trigger] s[i]).0, name),
        rank(s, name) < s.len() ==> !name_lt(s[rank(s, name)].0, name),
    decreases s.len(),
{
    if s.len() > 0 && name_lt(s[0].0, name) {
        rank_properties(s.skip(1), name);
        assert forall|i: int| 0 <= i < rank(s, name) implies name_lt((#[trigger] s[i]).0, name) by {
            if i > 0 {
                assert(s.skip(1)[i - 1] == s[i]);
            }
        }
    }
}

proof fn rank_unique(s: Seq<Property>, name: Seq<char>, at: int)
    requires
        0 <= at <= s.len(),
        forall|i: int| 0 <= i < at ==> name_lt((#[trigger] s[i]).0, name),
        at < s.len() ==> !name_lt(s[at].0, name),
    ensures
        rank(s, name) == at,
{
    rank_properties(s, name);
    let r = rank(s, name);
    if r < at {
        assert(name_lt(s[r].0, name));
    } else if at < r {
        assert(name_lt(s[at].0, name));
    }
}

/// Binding a name keeps the names in ascending order.
pub proof fn binding_keeps_order(s: Seq<Property>, name: Seq<char>, value: Seq<u8>)
    requires
        ascending(s),
    ensures
        ascending(bind(s, name, value)),
{
    rank_properties(s, name);
    let at = rank(s, name);
    let t = bind(s, name, value);
    if !bound(s, name) {
        assert forall|i: int, j: int|
            #![trigger t[i], t[j]]
            0 <= i < j < t.len() implies name_lt(t[i].0, t[j].0) by {
            if i == at {
                assert(t[j] == s[j - 1]);
                assert(at < s.len());
                bytes::lex_total(bytes::utf8(s[at].0), bytes::utf8(name));
                if bytes::utf8(s[at].0) == bytes::utf8(name) {
                    bytes::utf8_injective(s[at].0, name);
                }
                if j - 1 > at {
                    assert(name_lt(s[at].0, s[j - 1].0));
                    bytes::lex_transitive(
                        bytes::utf8(name),
                        bytes::utf8(s[at].0),
                        bytes::utf8(s[j - 1].0),
                    );
                }
            } else if j == at {
                assert(t[i] == s[i]);
            } else {
                let a = if i < at {
                    i
                } else {
                    i - 1
                };
                let b = if j < at {
                    j
                } else {
                    j - 1
                };
                assert(t[i] == s[a] && t[j] == s[b]);
            }
        }
    }
}

/// Application properties, ordered by name and without a repeated name.
#[derive(Debug, PartialEq, Eq)]
pub struct PropertyMap {
    entries: Vec<(String, CorrelationValue)>,
}

impl DeepView for PropertyMap {
    type V = Seq<Property>;

    closed spec fn deep_view(&self) -> Seq<Property> {
        self.entries.deep_view()
    }
}

impl PropertyMap {
    #[verifier::type_invariant]
    spec fn ordered(self) -> bool {
        ascending(self.entries.deep_view())
    }

    /// No properties.
    pub fn new() -> (map: PropertyMap)
        ensures
            map.deep_view() == Seq::<Property>::empty(),
    {
        let entries: Vec<(String, CorrelationValue)> = Vec::new();
        proof {
            assert(entries.deep_view() =~= Seq::<Property>::empty());
        }
        PropertyMap { entries }
    }

    /// How many properties there are. Their names stand in ascending order.
    pub fn len(&self) -> (n: usize)
        ensures
            n == self.deep_view().len(),
            ascending(self.deep_view()),
    {
        proof {
            use_type_invariant(self);
        }
        self.entries.len()
    }

    /// The name and value at `i`, counted in the order of names.
    pub fn entry(&self, i: usize) -> (property: (&str, &CorrelationValue))
        requires
            i < self.deep_view().len(),
        ensures
            property.0@ == self.deep_view()[i as int].0,
            property.1.deep_view() == self.deep_view()[i as int].1,
    {
        let (name, value) = &self.entries[i];
        (name.as_str(), value)
    }

    /// How many names sort before `name`.
    fn position(&self, name: &str) -> (at: usize)
        ensures
            at == rank(self.deep_view(), name@),
            at <= self.deep_view().len(),
    {
        let mut at: usize = 0;
        while at < self.entries.len() && bytes::sorts_below(
            self.entries[at].0.as_str().as_bytes(),
            name.as_bytes(),
        )
            invariant
                at <= self.entries@.len(),
                forall|i: int|
                    0 <= i < at ==> name_lt((#[trigger] self.deep_view()[i]).0, name@),
            decreases self.entries@.len() - at,
        {
            proof {
                assert(self.deep_view()[at as int].0 == self.entries@[at as int].0@);
            }
            at = at + 1;
        }
        proof {
            if at < self.entries@.len() {
                assert(self.deep_view()[at as int].0 == self.entries@[at as int].0@);
            }
            rank_unique(self.deep_view(), name@, at as int);
        }
        at
    }

    /// Binds `name` to `value` and tells whether it was bound before.
    pub fn insert(&mut self, name: String, value: CorrelationValue) -> (replaced: bool)
        ensures
            final(self).deep_view() == bind(old(self).deep_view(), name@, value.deep_view()),
            replaced == bound(old(self).deep_view(), name@),
    {
        proof {
            use_type_invariant(&*self);
        }
        let ghost before = self.deep_view();
        let at: usize = self.position(name.as_str());
        let ghost text = name@;
        let ghost encoding = value.deep_view();
        let mut entries: Vec<(String, CorrelationValue)> = Vec::new();
        std::mem::swap(&mut entries, &mut self.entries);
        let replaced = at < entries.len() && bytes::same_text(
            entries[at].0.as_str(),
            name.as_str(),
        );
        proof {
            if at < before.len() {
                assert(before[at as int].0 == entries@[at as int].0@);
            }
        }
        if replaced {
            entries.set(at, (name, value));
            proof {
                assert(entries.deep_view() =~= before.update(at as int, (text, encoding)));
            }
        } else {
            entries.insert(at, (name, value));
            proof {
                assert(entries.deep_view() =~= before.insert(at as int, (text, encoding)));
            }
        }
        proof {
            binding_keeps_order(before, text, encoding);
        }
        self.entries = entries;
        replaced
    }

    /// The value bound to exactly `name`.
    fn exactly(&self, name: &str) -> (value: Option<&CorrelationValue>)
        ensures
            match value {
                Some(value) => exact(self.deep_view(), name@) == Some(value.deep_view()),
                None => exact(self.deep_view(), name@) is None,
            },
    {
        let mut i: usize = 0;
        proof {
            assert(self.deep_view().skip(0) =~= self.deep_view());
        }
        while i < self.entries.len()
            invariant
                i <= self.deep_view().len(),
                self.deep_view().len() == self.entries@.len(),
                exact(self.deep_view().skip(i as int), name@) == exact(self.deep_view(), name@),
            decreases self.entries@.len() - i,
        {
            let (candidate, value) = self.entry(i);
            proof {
                assert(self.deep_view().skip(i as int).skip(1) =~= self.deep_view().skip(i + 1));
            }
            if bytes::same_text(candidate, name) {
                return Some(value);
            }
            i = i + 1;
        }
        None
    }

    /// The value bound to the first name that is `name` but for ASCII case.
    fn ignoring_case(&self, name: &str) -> (value: Option<&CorrelationValue>)
        ensures
            match value {
                Some(value) => caseless(self.deep_view(), name@) == Some(value.deep_view()),
                None => caseless(self.deep_view(), name@) is None,
            },
    {
        let folded = bytes::ascii_lowercase(name);
        let mut i: usize = 0;
        proof {
            assert(self.deep_view().skip(0) =~= self.deep_view());
        }
        while i < self.entries.len()
            invariant
                i <= self.deep_view().len(),
                self.deep_view().len() == self.entries@.len(),
                folded@ == bytes::fold_text(name@),
                caseless(self.deep_view().skip(i as int), name@) == caseless(
                    self.deep_view(),
                    name@,
                ),
            decreases self.entries@.len() - i,
        {
            let (candidate, value) = self.entry(i);
            proof {
                assert(self.deep_view().skip(i as int).skip(1) =~= self.deep_view().skip(i + 1));
            }
            if bytes::same_text(bytes::ascii_lowercase(candidate).as_str(), folded.as_str()) {
                return Some(value);
            }
            i = i + 1;
        }
        None
    }
}

impl Clone for PropertyMap {
    fn clone(&self) -> (copy: Self)
        ensures
            copy.deep_view() == self.deep_view(),
    {
        proof {
            use_type_invariant(self);
        }
        let mut entries: Vec<(String, CorrelationValue)> = Vec::new();
        let mut i: usize = 0;
        while i < self.entries.len()
            invariant
                i <= self.entries@.len(),
                self.deep_view() == self.entries.deep_view(),
                entries.deep_view() =~= self.deep_view().subrange(0, i as int),
            decreases self.entries@.len() - i,
        {
            let (name, value) = &self.entries[i];
            let ghost before = entries.deep_view();
            entries.push((name.clone(), value.clone()));
            i = i + 1;
            proof {
                assert(entries.deep_view() =~= before.push(self.deep_view()[i - 1]));
                assert(entries.deep_view() =~= self.deep_view().subrange(0, i as int));
            }
        }
        proof {
            assert(entries.deep_view() =~= self.deep_view());
        }
        PropertyMap { entries }
    }
}

impl Default for PropertyMap {
    fn default() -> (map: Self)
        ensures
            map.deep_view() == Seq::<Property>::empty(),
    {
        PropertyMap::new()
    }
}

/// The value of the first property named exactly `name`.
pub open spec fn exact(s: Seq<Property>, name: Seq<char>) -> Option<Seq<u8>>
    decreases s.len(),
{
    if s.len() == 0 {
        None
    } else if s[0].0 == name {
        Some(s[0].1)
    } else {
        exact(s.skip(1), name)
    }
}

/// The value of the first property whose name is `name` but for ASCII case.
pub open spec fn caseless(s: Seq<Property>, name: Seq<char>) -> Option<Seq<u8>>
    decreases s.len(),
{
    if s.len() == 0 {
        None
    } else if bytes::fold_text(s[0].0) == bytes::fold_text(name) {
        Some(s[0].1)
    } else {
        caseless(s.skip(1), name)
    }
}

/// The property that a predicate on `name` looks at: the one of exactly that
/// name, or else the first that differs from it only by ASCII case.
pub open spec fn property_named(s: Seq<Property>, name: Seq<char>) -> Option<Seq<u8>> {
    match exact(s, name) {
        Some(value) => Some(value),
        None => caseless(s, name),
    }
}

fn application_property<'a>(properties: &'a PropertyMap, name: &str) -> (value: Option<
    &'a CorrelationValue,
>)
    ensures
        match value {
            Some(value) => property_named(properties.deep_view(), name@) == Some(
                value.deep_view(),
            ),
            None => property_named(properties.deep_view(), name@) is None,
        },
{
    match properties.exactly(name) {
        Some(value) => Some(value),
        None => properties.ignoring_case(name),
    }
}

/// `acc` with every property of `s` bound under its folded name, unless a folded
/// name comes up twice.
pub open spec fn canonical_onto(s: Seq<Property>, acc: Seq<Property>) -> Option<Seq<Property>>
    decreases s.len(),
{
    if s.len() == 0 {
        Some(acc)
    } else if bound(acc, bytes::fold_text(s[0].0)) {
        None
    } else {
        canonical_onto(s.skip(1), bind(acc, bytes::fold_text(s[0].0), s[0].1))
    }
}

/// The properties under folded names, or nothing when two names differ only by
/// ASCII case.
pub open spec fn canonical(s: Seq<Property>) -> Option<Seq<Property>> {
    canonical_onto(s, Seq::empty())
}

#[verifier::loop_isolation(false)]
fn canonical_properties(properties: &PropertyMap) -> (folded: Result<PropertyMap, RuleConfigError>)
    ensures
        match folded {
            Ok(folded) => canonical(properties.deep_view()) == Some(folded.deep_view()),
            Err(error) => canonical(properties.deep_view()) is None && error
                == RuleConfigError::DuplicateApplicationProperty,
        },
{
    let mut folded = PropertyMap::new();
    let count: usize = properties.len();
    let mut i: usize = 0;
    let ghost s = properties.deep_view();
    proof {
        assert(s.skip(0) =~= s);
    }
    while i < count
        invariant
            i <= count,
            canonical_onto(s.skip(i as int), folded.deep_view()) == canonical(s),
        decreases count - i,
    {
        let (name, value) = properties.entry(i);
        proof {
            assert(s.skip(i as int).skip(1) =~= s.skip(i + 1));
        }
        if folded.insert(bytes::ascii_lowercase(name), value.clone()) {
            return Err(RuleConfigError::DuplicateApplicationProperty);
        }
        i = i + 1;
    }
    Ok(folded)
}

/// What a correlation filter looks at, or what it demands.
#[verifier::ext_equal]
pub struct PropertiesView {
    pub correlation_id: Option<Seq<char>>,
    pub message_id: Option<Seq<char>>,
    pub to: Option<Seq<char>>,
    pub reply_to: Option<Seq<char>>,
    pub subject: Option<Seq<char>>,
    pub session_id: Option<Seq<char>>,
    pub reply_to_session_id: Option<Seq<char>>,
    pub content_type: Option<Seq<char>>,
    pub application_properties: Seq<Property>,
}

/// Nothing at all.
pub open spec fn no_properties() -> PropertiesView {
    PropertiesView {
        correlation_id: None,
        message_id: None,
        to: None,
        reply_to: None,
        subject: None,
        session_id: None,
        reply_to_session_id: None,
        content_type: None,
        application_properties: Seq::empty(),
    }
}

/// Broker-neutral projection of the system and application properties that a
/// correlation rule may inspect. Message bodies are intentionally absent.
#[derive(Debug, PartialEq, Eq)]
pub struct FilterProperties {
    pub correlation_id: Option<String>,
    pub message_id: Option<String>,
    pub to: Option<String>,
    pub reply_to: Option<String>,
    pub subject: Option<String>,
    pub session_id: Option<String>,
    pub reply_to_session_id: Option<String>,
    pub content_type: Option<String>,
    pub application_properties: PropertyMap,
}

impl DeepView for FilterProperties {
    type V = PropertiesView;

    open spec fn deep_view(&self) -> PropertiesView {
        PropertiesView {
            correlation_id: self.correlation_id.deep_view(),
            message_id: self.message_id.deep_view(),
            to: self.to.deep_view(),
            reply_to: self.reply_to.deep_view(),
            subject: self.subject.deep_view(),
            session_id: self.session_id.deep_view(),
            reply_to_session_id: self.reply_to_session_id.deep_view(),
            content_type: self.content_type.deep_view(),
            application_properties: self.application_properties.deep_view(),
        }
    }
}

impl Default for FilterProperties {
    fn default() -> (properties: Self)
        ensures
            properties.deep_view() == no_properties(),
    {
        FilterProperties {
            correlation_id: None,
            message_id: None,
            to: None,
            reply_to: None,
            subject: None,
            session_id: None,
            reply_to_session_id: None,
            content_type: None,
            application_properties: PropertyMap::new(),
        }
    }
}

impl Clone for FilterProperties {
    fn clone(&self) -> (copy: Self)
        ensures
            copy.deep_view() == self.deep_view(),
    {
        FilterProperties {
            correlation_id: self.correlation_id.clone(),
            message_id: self.message_id.clone(),
            to: self.to.clone(),
            reply_to: self.reply_to.clone(),
            subject: self.subject.clone(),
            session_id: self.session_id.clone(),
            reply_to_session_id: self.reply_to_session_id.clone(),
            content_type: self.content_type.clone(),
            application_properties: self.application_properties.clone(),
        }
    }
}

/// `properties` with its application properties under folded names.
pub open spec fn canonical_view(properties: PropertiesView) -> Result<
    PropertiesView,
    RuleConfigError,
> {
    match canonical(properties.application_properties) {
        Some(folded) => Ok(PropertiesView { application_properties: folded, ..properties }),
        None => Err(RuleConfigError::DuplicateApplicationProperty),
    }
}

impl FilterProperties {
    pub(crate) fn canonicalized(self) -> (folded: Result<FilterProperties, RuleConfigError>)
        ensures
            match folded {
                Ok(folded) => canonical_view(self.deep_view()) == Ok::<
                    PropertiesView,
                    RuleConfigError,
                >(folded.deep_view()),
                Err(error) => canonical_view(self.deep_view()) == Err::<
                    PropertiesView,
                    RuleConfigError,
                >(error),
            },
    {
        let application_properties = canonical_properties(&self.application_properties)?;
        Ok(
            FilterProperties {
                correlation_id: self.correlation_id,
                message_id: self.message_id,
                to: self.to,
                reply_to: self.reply_to,
                subject: self.subject,
                session_id: self.session_id,
                reply_to_session_id: self.reply_to_session_id,
                content_type: self.content_type,
                application_properties,
            },
        )
    }
}

/// Equality predicates supported by the optimized Service Bus correlation
/// filter. Every populated member must match; string comparison is ordinal and
/// case-sensitive.
#[derive(Debug, PartialEq, Eq)]
pub struct CorrelationFilter {
    pub correlation_id: Option<String>,
    pub message_id: Option<String>,
    pub to: Option<String>,
    pub reply_to: Option<String>,
    pub subject: Option<String>,
    pub session_id: Option<String>,
    pub reply_to_session_id: Option<String>,
    pub content_type: Option<String>,
    pub application_properties: PropertyMap,
}

impl DeepView for CorrelationFilter {
    type V = PropertiesView;

    open spec fn deep_view(&self) -> PropertiesView {
        PropertiesView {
            correlation_id: self.correlation_id.deep_view(),
            message_id: self.message_id.deep_view(),
            to: self.to.deep_view(),
            reply_to: self.reply_to.deep_view(),
            subject: self.subject.deep_view(),
            session_id: self.session_id.deep_view(),
            reply_to_session_id: self.reply_to_session_id.deep_view(),
            content_type: self.content_type.deep_view(),
            application_properties: self.application_properties.deep_view(),
        }
    }
}

impl Default for CorrelationFilter {
    fn default() -> (filter: Self)
        ensures
            filter.deep_view() == no_properties(),
    {
        CorrelationFilter {
            correlation_id: None,
            message_id: None,
            to: None,
            reply_to: None,
            subject: None,
            session_id: None,
            reply_to_session_id: None,
            content_type: None,
            application_properties: PropertyMap::new(),
        }
    }
}

impl Clone for CorrelationFilter {
    fn clone(&self) -> (copy: Self)
        ensures
            copy.deep_view() == self.deep_view(),
    {
        CorrelationFilter {
            correlation_id: self.correlation_id.clone(),
            message_id: self.message_id.clone(),
            to: self.to.clone(),
            reply_to: self.reply_to.clone(),
            subject: self.subject.clone(),
            session_id: self.session_id.clone(),
            reply_to_session_id: self.reply_to_session_id.clone(),
            content_type: self.content_type.clone(),
            application_properties: self.application_properties.clone(),
        }
    }
}

/// A populated member matches only itself.
pub open spec fn member_matches(expected: Option<Seq<char>>, actual: Option<Seq<char>>) -> bool {
    expected is None || actual == expected
}

/// Every populated member of `filter` matches.
pub open spec fn correlates(filter: PropertiesView, actual: PropertiesView) -> bool {
    &&& member_matches(filter.correlation_id, actual.correlation_id)
    &&& member_matches(filter.message_id, actual.message_id)
    &&& member_matches(filter.to, actual.to)
    &&& member_matches(filter.reply_to, actual.reply_to)
    &&& member_matches(filter.subject, actual.subject)
    &&& member_matches(filter.session_id, actual.session_id)
    &&& member_matches(filter.reply_to_session_id, actual.reply_to_session_id)
    &&& member_matches(filter.content_type, actual.content_type)
    &&& forall|i: int|
        0 <= i < filter.application_properties.len() ==> property_named(
            actual.application_properties,
            (#[trigger] filter.application_properties[i]).0,
        ) == Some(filter.application_properties[i].1)
}

/// The bytes of a member that is there.
pub open spec fn member_bytes(member: Option<Seq<char>>) -> nat {
    match member {
        Some(text) => bytes::utf8(text).len(),
        None => 0,
    }
}

/// The bytes of the first `n` application properties, names and values.
pub open spec fn property_bytes(s: Seq<Property>, n: int) -> nat
    decreases n,
{
    if n <= 0 {
        0
    } else {
        property_bytes(s, n - 1) + bytes::utf8(s[n - 1].0).len() + s[n - 1].1.len()
    }
}

/// The logical size of a filter.
pub open spec fn filter_bytes(filter: PropertiesView) -> nat {
    member_bytes(filter.correlation_id) + member_bytes(filter.message_id) + member_bytes(filter.to)
        + member_bytes(filter.reply_to) + member_bytes(filter.subject) + member_bytes(
        filter.session_id,
    ) + member_bytes(filter.reply_to_session_id) + member_bytes(filter.content_type)
        + property_bytes(filter.application_properties, filter.application_properties.len() as int)
}

/// `n`, held at the largest machine size.
pub open spec fn clamped(n: nat) -> usize {
    if n <= usize::MAX {
        n as usize
    } else {
        usize::MAX
    }
}

/// What stops `filter` from being stored.
pub open spec fn filter_fault(filter: PropertiesView) -> Option<RuleConfigError> {
    if filter.session_id is Some {
        Some(RuleConfigError::SessionIdNotSupported)
    } else if filter =~= no_properties() {
        Some(RuleConfigError::EmptyCorrelationFilter)
    } else if canonical(filter.application_properties) is None {
        Some(RuleConfigError::DuplicateApplicationProperty)
    } else if filter_bytes(filter) > MAX_CORRELATION_FILTER_BYTES {
        Some(
            RuleConfigError::CorrelationFilterTooLarge {
                bytes: clamped(filter_bytes(filter)),
                maximum: MAX_CORRELATION_FILTER_BYTES,
            },
        )
    } else {
        None
    }
}

fn matches_optional(expected: &Option<String>, actual: &Option<String>) -> (matches: bool)
    ensures
        matches == member_matches(expected.deep_view(), actual.deep_view()),
{
    match expected {
        None => true,
        Some(expected) => match actual {
            None => false,
            Some(actual) => bytes::same_text(expected.as_str(), actual.as_str()),
        },
    }
}

/// `sum` and the bytes of `member`, held at the largest machine size.
fn with_member(sum: usize, member: &Option<String>, total: Ghost<nat>) -> (longer: usize)
    requires
        sum == clamped(total@),
    ensures
        longer == clamped(total@ + member_bytes(member.deep_view())),
{
    match member {
        Some(text) => sum.saturating_add(text.as_str().as_bytes().len()),
        None => sum,
    }
}

impl CorrelationFilter {
    #[verifier::loop_isolation(false)]
    pub fn matches(&self, properties: &FilterProperties) -> (matches: bool)
        ensures
            matches == correlates(self.deep_view(), properties.deep_view()),
    {
        if !(matches_optional(&self.correlation_id, &properties.correlation_id)
            && matches_optional(&self.message_id, &properties.message_id)
            && matches_optional(&self.to, &properties.to)
            && matches_optional(&self.reply_to, &properties.reply_to)
            && matches_optional(&self.subject, &properties.subject)
            && matches_optional(&self.session_id, &properties.session_id)
            && matches_optional(&self.reply_to_session_id, &properties.reply_to_session_id)
            && matches_optional(&self.content_type, &properties.content_type)) {
            return false;
        }
        let count: usize = self.application_properties.len();
        let mut i: usize = 0;
        let ghost expected = self.deep_view().application_properties;
        let ghost actual = properties.deep_view().application_properties;
        while i < count
            invariant
                i <= count,
                forall|j: int|
                    0 <= j < i ==> property_named(actual, (#[trigger] expected[j]).0) == Some(
                        expected[j].1,
                    ),
            decreases count - i,
        {
            let (name, value) = self.application_properties.entry(i);
            let found = application_property(&properties.application_properties, name);
            let same = match found {
                Some(found) => bytes::same_bytes(found.as_bytes(), value.as_bytes()),
                None => false,
            };
            if !same {
                proof {
                    assert(property_named(actual, expected[i as int].0) != Some(
                        expected[i as int].1,
                    ));
                }
                return false;
            }
            i = i + 1;
        }
        true
    }

    fn is_empty(&self) -> (empty: bool)
        ensures
            empty == (self.deep_view() =~= no_properties()),
    {
        self.correlation_id.is_none() && self.message_id.is_none() && self.to.is_none()
            && self.reply_to.is_none() && self.subject.is_none() && self.session_id.is_none()
            && self.reply_to_session_id.is_none() && self.content_type.is_none()
            && self.application_properties.len() == 0
    }

    /// The logical size of the filter, held at the largest machine size.
    #[verifier::loop_isolation(false)]
    fn size(&self) -> (size: usize)
        ensures
            size == clamped(filter_bytes(self.deep_view())),
    {
        let ghost v = self.deep_view();
        let count: usize = self.application_properties.len();
        let mut application: usize = 0;
        let mut i: usize = 0;
        while i < count
            invariant
                i <= count,
                application == clamped(property_bytes(v.application_properties, i as int)),
            decreases count - i,
        {
            let (name, value) = self.application_properties.entry(i);
            application = application.saturating_add(name.as_bytes().len());
            application = application.saturating_add(value.as_bytes().len());
            i = i + 1;
        }
        let ghost n0 = property_bytes(v.application_properties, count as int);
        let sum = with_member(application, &self.correlation_id, Ghost(n0));
        let ghost n1 = n0 + member_bytes(v.correlation_id);
        let sum = with_member(sum, &self.message_id, Ghost(n1));
        let ghost n2 = n1 + member_bytes(v.message_id);
        let sum = with_member(sum, &self.to, Ghost(n2));
        let ghost n3 = n2 + member_bytes(v.to);
        let sum = with_member(sum, &self.reply_to, Ghost(n3));
        let ghost n4 = n3 + member_bytes(v.reply_to);
        let sum = with_member(sum, &self.subject, Ghost(n4));
        let ghost n5 = n4 + member_bytes(v.subject);
        let sum = with_member(sum, &self.session_id, Ghost(n5));
        let ghost n6 = n5 + member_bytes(v.session_id);
        let sum = with_member(sum, &self.reply_to_session_id, Ghost(n6));
        let ghost n7 = n6 + member_bytes(v.reply_to_session_id);
        with_member(sum, &self.content_type, Ghost(n7))
    }

    fn validate(&self) -> (valid: Result<(), RuleConfigError>)
        ensures
            match valid {
                Ok(_) => filter_fault(self.deep_view()) is None,
                Err(error) => filter_fault(self.deep_view()) == Some(error),
            },
    {
        // Topic publications carrying a session identifier are deliberately
        // refused until subscription session fanout is implemented. Accepting
        // this predicate today would create a durable rule that no valid send
        // could ever satisfy.
        if self.session_id.is_some() {
            return Err(RuleConfigError::SessionIdNotSupported);
        }
        if self.is_empty() {
            return Err(RuleConfigError::EmptyCorrelationFilter);
        }
        canonical_properties(&self.application_properties)?;
        let bytes: usize = self.size();
        if bytes > MAX_CORRELATION_FILTER_BYTES {
            return Err(
                RuleConfigError::CorrelationFilterTooLarge {
                    bytes,
                    maximum: MAX_CORRELATION_FILTER_BYTES,
                },
            );
        }
        Ok(())
    }

    fn canonicalized(&self) -> (folded: Result<CorrelationFilter, RuleConfigError>)
        ensures
            match folded {
                Ok(folded) => filter_fault(self.deep_view()) is None && canonical_view(
                    self.deep_view(),
                ) == Ok::<PropertiesView, RuleConfigError>(folded.deep_view()),
                Err(error) => filter_fault(self.deep_view()) == Some(error),
            },
    {
        self.validate()?;
        let folded = canonical_properties(&self.application_properties)?;
        let mut filter = self.clone();
        filter.application_properties = folded;
        Ok(filter)
    }
}

/// An actionless subscription filter. SQL filters and actions remain explicit
/// future variants rather than strings that this build would silently accept
/// without implementing their language.
#[derive(Debug, PartialEq, Eq)]
pub enum RuleFilter {
    True,
    False,
    Correlation(CorrelationFilter),
}

pub enum RuleFilterView {
    True,
    False,
    Correlation(PropertiesView),
}

impl DeepView for RuleFilter {
    type V = RuleFilterView;

    open spec fn deep_view(&self) -> RuleFilterView {
        match self {
            RuleFilter::True => RuleFilterView::True,
            RuleFilter::False => RuleFilterView::False,
            RuleFilter::Correlation(filter) => RuleFilterView::Correlation(filter.deep_view()),
        }
    }
}

impl Clone for RuleFilter {
    fn clone(&self) -> (copy: Self)
        ensures
            copy.deep_view() == self.deep_view(),
    {
        match self {
            RuleFilter::True => RuleFilter::True,
            RuleFilter::False => RuleFilter::False,
            RuleFilter::Correlation(filter) => RuleFilter::Correlation(filter.clone()),
        }
    }
}

/// What stops a rule filter from being stored.
pub open spec fn rule_filter_fault(filter: RuleFilterView) -> Option<RuleConfigError> {
    match filter {
        RuleFilterView::Correlation(filter) => filter_fault(filter),
        _ => None,
    }
}

/// The form in which a rule filter is stored.
pub open spec fn canonical_filter(filter: RuleFilterView) -> Result<
    RuleFilterView,
    RuleConfigError,
> {
    match filter {
        RuleFilterView::Correlation(filter) => match filter_fault(filter) {
            Some(error) => Err(error),
            None => match canonical_view(filter) {
                Ok(folded) => Ok(RuleFilterView::Correlation(folded)),
                Err(error) => Err(error),
            },
        },
        other => Ok(other),
    }
}

/// A rule selects a message.
pub open spec fn selects(filter: RuleFilterView, properties: PropertiesView) -> bool {
    match filter {
        RuleFilterView::True => true,
        RuleFilterView::False => false,
        RuleFilterView::Correlation(filter) => correlates(filter, properties),
    }
}

impl RuleFilter {
    pub fn validate(&self) -> (valid: Result<(), RuleConfigError>)
        ensures
            match valid {
                Ok(_) => rule_filter_fault(self.deep_view()) is None,
                Err(error) => rule_filter_fault(self.deep_view()) == Some(error),
            },
    {
        match self {
            RuleFilter::True => Ok(()),
            RuleFilter::False => Ok(()),
            RuleFilter::Correlation(filter) => filter.validate(),
        }
    }

    pub fn matches(&self, properties: &FilterProperties) -> (matches: bool)
        ensures
            matches == selects(self.deep_view(), properties.deep_view()),
    {
        match self {
            RuleFilter::True => true,
            RuleFilter::False => false,
            RuleFilter::Correlation(filter) => filter.matches(properties),
        }
    }

    pub(crate) fn canonicalized(&self) -> (folded: Result<RuleFilter, RuleConfigError>)
        ensures
            match folded {
                Ok(folded) => canonical_filter(self.deep_view()) == Ok::<
                    RuleFilterView,
                    RuleConfigError,
                >(folded.deep_view()),
                Err(error) => canonical_filter(self.deep_view()) == Err::<
                    RuleFilterView,
                    RuleConfigError,
                >(error),
            },
    {
        match self {
            RuleFilter::True => Ok(RuleFilter::True),
            RuleFilter::False => Ok(RuleFilter::False),
            RuleFilter::Correlation(filter) => Ok(RuleFilter::Correlation(filter.canonicalized()?)),
        }
    }
}

/// Durable rule revision. `created_at` comes from the replicated command, not
/// from a local clock, so every replica and restart reports the same value.
#[derive(Debug, PartialEq, Eq)]
pub struct RuleDefinition {
    pub name: RuleName,
    pub filter: RuleFilter,
    pub created_at: Timestamp,
}

pub struct RuleDefinitionView {
    pub name: Seq<char>,
    pub filter: RuleFilterView,
    pub created_at: Timestamp,
}

impl DeepView for RuleDefinition {
    type V = RuleDefinitionView;

    open spec fn deep_view(&self) -> RuleDefinitionView {
        RuleDefinitionView {
            name: self.name.deep_view(),
            filter: self.filter.deep_view(),
            created_at: self.created_at,
        }
    }
}

impl Clone for RuleDefinition {
    fn clone(&self) -> (copy: Self)
        ensures
            copy.deep_view() == self.deep_view(),
    {
        RuleDefinition {
            name: self.name.clone(),
            filter: self.filter.clone(),
            created_at: self.created_at,
        }
    }
}

/// The match-all rule of a new subscription.
pub open spec fn default_rule(created_at: Timestamp) -> RuleDefinitionView {
    RuleDefinitionView { name: DEFAULT_RULE_NAME@, filter: RuleFilterView::True, created_at }
}

impl RuleDefinition {
    pub(crate) fn default_at(created_at: Timestamp) -> (rule: RuleDefinition)
        ensures
            rule.deep_view() == default_rule(created_at),
    {
        RuleDefinition {
            name: RuleName::stored(DEFAULT_RULE_NAME.to_owned()),
            filter: RuleFilter::True,
            created_at,
        }
    }
}

/// The name of the match-all rule is a valid one.
pub proof fn default_rule_name_is_valid()
    ensures
        crate::domain::identifier::rule_name_fault(DEFAULT_RULE_NAME@) is None,
{
    reveal_strlit("$default");
}

/// A filter has a stored form exactly when it is valid.
pub proof fn valid_filters_have_a_stored_form(filter: RuleFilterView)
    ensures
        canonical_filter(filter) is Ok <==> rule_filter_fault(filter) is None,
{
}

// ---- stored layout ---------------------------------------------------------

/// Properties one after the other.
pub open spec fn properties_wire(s: Seq<Property>) -> Seq<u8>
    decreases s.len(),
{
    if s.len() == 0 {
        Seq::empty()
    } else {
        <(String, Vec<u8>) as Wire>::wire(s[0]) + properties_wire(s.skip(1))
    }
}

/// `acc` with the `n` properties that `b` begins with bound one by one.
pub open spec fn take_properties(b: Seq<u8>, n: nat, acc: Seq<Property>) -> Option<
    (Seq<Property>, Seq<u8>),
>
    decreases n,
{
    if n == 0 {
        Some((acc, b))
    } else {
        match <(String, Vec<u8>) as Wire>::unwire(b) {
            Some(((name, value), rest)) => take_properties(
                rest,
                (n - 1) as nat,
                bind(acc, name, value),
            ),
            None => None,
        }
    }
}

pub open spec fn properties_fit(s: Seq<Property>) -> bool {
    &&& s.len() <= usize::MAX
    &&& ascending(s)
    &&& forall|i: int| 0 <= i < s.len() ==> <(String, Vec<u8>) as Wire>::fits(#[trigger] s[i])
}

proof fn properties_round_trip(acc: Seq<Property>, s: Seq<Property>, rest: Seq<u8>)
    requires
        ascending(acc + s),
        forall|i: int| 0 <= i < s.len() ==> <(String, Vec<u8>) as Wire>::fits(#[trigger] s[i]),
    ensures
        take_properties(properties_wire(s) + rest, s.len(), acc) == Some((acc + s, rest)),
    decreases s.len(),
{
    if s.len() == 0 {
        assert(properties_wire(s) + rest =~= rest);
        assert(acc + s =~= acc);
    } else {
        let tail = s.skip(1);
        <(String, Vec<u8>) as Wire>::round_trip(s[0], properties_wire(tail) + rest);
        assert(properties_wire(s) + rest =~= <(String, Vec<u8>) as Wire>::wire(s[0]) + (
        properties_wire(tail) + rest));
        let whole = acc + s;
        assert forall|i: int| 0 <= i < acc.len() implies name_lt(
            (#[trigger] acc[i]).0,
            s[0].0,
        ) by {
            assert(whole[i] == acc[i] && whole[acc.len() as int] == s[0]);
        }
        rank_unique(acc, s[0].0, acc.len() as int);
        assert(bind(acc, s[0].0, s[0].1) =~= acc.push(s[0]));
        assert(acc.push(s[0]) + tail =~= acc + s);
        assert forall|i: int| 0 <= i < tail.len() implies <(String, Vec<u8>) as Wire>::fits(
            #[trigger] tail[i],
        ) by {
            assert(tail[i] == s[i + 1]);
        }
        properties_round_trip(acc.push(s[0]), tail, rest);
    }
}

impl Wire for CorrelationValue {
    open spec fn fits(v: Seq<u8>) -> bool {
        v.len() <= usize::MAX
    }

    open spec fn wire(v: Seq<u8>) -> Seq<u8> {
        crate::domain::wire::block(v)
    }

    open spec fn unwire(b: Seq<u8>) -> Option<(Seq<u8>, Seq<u8>)> {
        crate::domain::wire::take_block(b)
    }

    proof fn round_trip(v: Seq<u8>, rest: Seq<u8>) {
        <Vec<u8> as Wire>::round_trip(v, rest);
    }

    fn write(&self, out: &mut Vec<u8>) {
        let ghost start = out@;
        write_block(self.encoding.as_slice(), out);
        proof {
            assert(out@ == start + crate::domain::wire::block(self.encoding@));
            assert(self.deep_view() == self.encoding@);
            assert(Self::wire(self.deep_view()) == crate::domain::wire::block(self.encoding@));
        }
    }

    fn read(b: &[u8]) -> (taken: Option<(CorrelationValue, &[u8])>) {
        match <Vec<u8> as Wire>::read(b) {
            Some((encoding, rest)) => {
                proof {
                    assert(encoding.deep_view() =~= encoding@);
                }
                Some((CorrelationValue { encoding }, rest))
            },
            None => None,
        }
    }
}

impl Wire for PropertyMap {
    open spec fn fits(v: Seq<Property>) -> bool {
        properties_fit(v)
    }

    open spec fn wire(v: Seq<Property>) -> Seq<u8> {
        <usize as Wire>::wire(v.len() as usize) + properties_wire(v)
    }

    open spec fn unwire(b: Seq<u8>) -> Option<(Seq<Property>, Seq<u8>)> {
        match <usize as Wire>::unwire(b) {
            Some((n, rest)) => take_properties(rest, n as nat, Seq::empty()),
            None => None,
        }
    }

    proof fn round_trip(v: Seq<Property>, rest: Seq<u8>) {
        <usize as Wire>::round_trip(v.len() as usize, properties_wire(v) + rest);
        assert(Self::wire(v) + rest =~= <usize as Wire>::wire(v.len() as usize) + (properties_wire(
            v,
        ) + rest));
        assert(Seq::<Property>::empty() + v =~= v);
        properties_round_trip(Seq::empty(), v, rest);
    }

    #[verifier::loop_isolation(false)]
    fn write(&self, out: &mut Vec<u8>) {
        let ghost start = out@;
        let ghost v = self.deep_view();
        let count: usize = self.len();
        count.write(out);
        let ghost head = out@;
        let mut i: usize = 0;
        proof {
            assert(v.skip(0) =~= v);
        }
        while i < count
            invariant
                i <= count,
                out@ + properties_wire(v.skip(i as int)) =~= head + properties_wire(v),
            decreases count - i,
        {
            let (name, value) = &self.entries[i];
            let ghost before = out@;
            name.write(out);
            value.write(out);
            proof {
                assert(v[i as int] == (name@, value.deep_view()));
                assert(v.skip(i as int).skip(1) =~= v.skip(i + 1));
                assert(out@ =~= before + <(String, Vec<u8>) as Wire>::wire(v[i as int]));
            }
            i = i + 1;
        }
        proof {
            assert(properties_wire(v.skip(count as int)) =~= Seq::<u8>::empty());
            assert(out@ =~= start + Self::wire(v));
        }
    }

    #[verifier::loop_isolation(false)]
    fn read(b: &[u8]) -> (taken: Option<(PropertyMap, &[u8])>) {
        let (count, first) = match <usize as Wire>::read(b) {
            Some(taken) => taken,
            None => return None,
        };
        let mut rest: &[u8] = first;
        let mut map = PropertyMap::new();
        let mut left: usize = count;
        while left > 0
            invariant
                take_properties(rest@, left as nat, map.deep_view()) == Self::unwire(b@),
            decreases left,
        {
            match <(String, CorrelationValue) as Wire>::read(rest) {
                Some(((name, value), next)) => {
                    map.insert(name, value);
                    rest = next;
                },
                None => {
                    return None;
                },
            }
            left = left - 1;
        }
        Some((map, rest))
    }
}

pub type PropertiesFields = (
    Option<String>,
    (
        Option<String>,
        (
            Option<String>,
            (
                Option<String>,
                (
                    Option<String>,
                    (Option<String>, (Option<String>, (Option<String>, PropertyMap))),
                ),
            ),
        ),
    ),
);

pub open spec fn properties_fields(v: PropertiesView) -> <PropertiesFields as DeepView>::V {
    (
        v.correlation_id,
        (
            v.message_id,
            (
                v.to,
                (
                    v.reply_to,
                    (
                        v.subject,
                        (
                            v.session_id,
                            (v.reply_to_session_id, (v.content_type, v.application_properties)),
                        ),
                    ),
                ),
            ),
        ),
    )
}

pub open spec fn properties_of_fields(f: <PropertiesFields as DeepView>::V) -> PropertiesView {
    PropertiesView {
        correlation_id: f.0,
        message_id: f.1.0,
        to: f.1.1.0,
        reply_to: f.1.1.1.0,
        subject: f.1.1.1.1.0,
        session_id: f.1.1.1.1.1.0,
        reply_to_session_id: f.1.1.1.1.1.1.0,
        content_type: f.1.1.1.1.1.1.1.0,
        application_properties: f.1.1.1.1.1.1.1.1,
    }
}

#[verifier::opaque]
pub open spec fn properties_view_fits(v: PropertiesView) -> bool {
    <PropertiesFields as Wire>::fits(properties_fields(v))
}

#[verifier::opaque]
pub open spec fn properties_view_wire(v: PropertiesView) -> Seq<u8> {
    <PropertiesFields as Wire>::wire(properties_fields(v))
}

#[verifier::opaque]
pub open spec fn properties_view_unwire(b: Seq<u8>) -> Option<(PropertiesView, Seq<u8>)> {
    match <PropertiesFields as Wire>::unwire(b) {
        Some((fields, rest)) => Some((properties_of_fields(fields), rest)),
        None => None,
    }
}

/// Fields written one by one are the fields written at once.
proof fn joined(
    start: Seq<u8>,
    a: Seq<u8>,
    b: Seq<u8>,
    c: Seq<u8>,
    d: Seq<u8>,
    e: Seq<u8>,
    f: Seq<u8>,
    g: Seq<u8>,
    h: Seq<u8>,
    i: Seq<u8>,
)
    ensures
        start + a + b + c + d + e + f + g + h + i == start + (a + (b + (c + (d + (e + (f + (g + (h
            + i)))))))),
{
    assert(start + a + b + c + d + e + f + g + h + i =~= start + (a + (b + (c + (d + (e + (f + (g
        + (h + i)))))))));
}

impl Wire for CorrelationFilter {
    open spec fn fits(v: PropertiesView) -> bool {
        properties_view_fits(v)
    }

    open spec fn wire(v: PropertiesView) -> Seq<u8> {
        properties_view_wire(v)
    }

    open spec fn unwire(b: Seq<u8>) -> Option<(PropertiesView, Seq<u8>)> {
        properties_view_unwire(b)
    }

    proof fn round_trip(v: PropertiesView, rest: Seq<u8>) {
        reveal(properties_view_fits);
        reveal(properties_view_wire);
        reveal(properties_view_unwire);
        <PropertiesFields as Wire>::round_trip(properties_fields(v), rest);
    }

    fn write(&self, out: &mut Vec<u8>) {
        let ghost start = out@;
        let ghost v = self.deep_view();
        self.correlation_id.write(out);
        self.message_id.write(out);
        self.to.write(out);
        self.reply_to.write(out);
        self.subject.write(out);
        self.session_id.write(out);
        self.reply_to_session_id.write(out);
        self.content_type.write(out);
        self.application_properties.write(out);
        proof {
            reveal(properties_view_wire);
            joined(
                start,
                <Option<String> as Wire>::wire(v.correlation_id),
                <Option<String> as Wire>::wire(v.message_id),
                <Option<String> as Wire>::wire(v.to),
                <Option<String> as Wire>::wire(v.reply_to),
                <Option<String> as Wire>::wire(v.subject),
                <Option<String> as Wire>::wire(v.session_id),
                <Option<String> as Wire>::wire(v.reply_to_session_id),
                <Option<String> as Wire>::wire(v.content_type),
                <PropertyMap as Wire>::wire(v.application_properties),
            );
        }
    }

    fn read(b: &[u8]) -> (taken: Option<(CorrelationFilter, &[u8])>) {
        proof {
            reveal(properties_view_unwire);
        }
        match <PropertiesFields as Wire>::read(b) {
            Some((f, rest)) => {
                let ghost read = f.deep_view();
                let (correlation_id, f) = f;
                let (message_id, f) = f;
                let (to, f) = f;
                let (reply_to, f) = f;
                let (subject, f) = f;
                let (session_id, f) = f;
                let (reply_to_session_id, f) = f;
                let (content_type, application_properties) = f;
                let filter = CorrelationFilter {
                    correlation_id,
                    message_id,
                    to,
                    reply_to,
                    subject,
                    session_id,
                    reply_to_session_id,
                    content_type,
                    application_properties,
                };
                proof {
                    assert(filter.deep_view() == properties_of_fields(read));
                    assert(Self::unwire(b@) == properties_view_unwire(b@));
                }
                Some((filter, rest))
            },
            None => None,
        }
    }
}

impl Wire for RuleFilter {
    open spec fn fits(v: RuleFilterView) -> bool {
        v matches RuleFilterView::Correlation(filter) ==> <CorrelationFilter as Wire>::fits(filter)
    }

    open spec fn wire(v: RuleFilterView) -> Seq<u8> {
        match v {
            RuleFilterView::True => <u32 as Wire>::wire(0),
            RuleFilterView::False => <u32 as Wire>::wire(1),
            RuleFilterView::Correlation(filter) => <(u32, CorrelationFilter) as Wire>::wire(
                (2, filter),
            ),
        }
    }

    open spec fn unwire(b: Seq<u8>) -> Option<(RuleFilterView, Seq<u8>)> {
        match <u32 as Wire>::unwire(b) {
            Some((0, rest)) => Some((RuleFilterView::True, rest)),
            Some((1, rest)) => Some((RuleFilterView::False, rest)),
            Some((2, rest)) => match <CorrelationFilter as Wire>::unwire(rest) {
                Some((filter, rest)) => Some((RuleFilterView::Correlation(filter), rest)),
                None => None,
            },
            _ => None,
        }
    }

    proof fn round_trip(v: RuleFilterView, rest: Seq<u8>) {
        match v {
            RuleFilterView::True => {
                <u32 as Wire>::round_trip(0, rest);
            },
            RuleFilterView::False => {
                <u32 as Wire>::round_trip(1, rest);
            },
            RuleFilterView::Correlation(filter) => {
                let body = <CorrelationFilter as Wire>::wire(filter);
                <u32 as Wire>::round_trip(2, body + rest);
                <CorrelationFilter as Wire>::round_trip(filter, rest);
                assert(Self::wire(v) + rest =~= <u32 as Wire>::wire(2) + (body + rest));
            },
        }
    }

    fn write(&self, out: &mut Vec<u8>) {
        let ghost start = out@;
        match self {
            RuleFilter::True => {
                0u32.write(out);
            },
            RuleFilter::False => {
                1u32.write(out);
            },
            RuleFilter::Correlation(filter) => {
                2u32.write(out);
                filter.write(out);
            },
        }
        proof {
            assert(out@ =~= start + Self::wire(self.deep_view()));
        }
    }

    fn read(b: &[u8]) -> (taken: Option<(RuleFilter, &[u8])>) {
        match <u32 as Wire>::read(b) {
            Some((0, rest)) => Some((RuleFilter::True, rest)),
            Some((1, rest)) => Some((RuleFilter::False, rest)),
            Some((2, rest)) => match <CorrelationFilter as Wire>::read(rest) {
                Some((filter, rest)) => Some((RuleFilter::Correlation(filter), rest)),
                None => None,
            },
            _ => None,
        }
    }
}

impl Wire for RuleDefinition {
    open spec fn fits(v: RuleDefinitionView) -> bool {
        <String as Wire>::fits(v.name) && <RuleFilter as Wire>::fits(v.filter)
    }

    open spec fn wire(v: RuleDefinitionView) -> Seq<u8> {
        <(RuleName, (RuleFilter, Timestamp)) as Wire>::wire((v.name, (v.filter, v.created_at)))
    }

    open spec fn unwire(b: Seq<u8>) -> Option<(RuleDefinitionView, Seq<u8>)> {
        match <(RuleName, (RuleFilter, Timestamp)) as Wire>::unwire(b) {
            Some(((name, (filter, created_at)), rest)) => Some(
                (RuleDefinitionView { name, filter, created_at }, rest),
            ),
            None => None,
        }
    }

    proof fn round_trip(v: RuleDefinitionView, rest: Seq<u8>) {
        <(RuleName, (RuleFilter, Timestamp)) as Wire>::round_trip(
            (v.name, (v.filter, v.created_at)),
            rest,
        );
    }

    fn write(&self, out: &mut Vec<u8>) {
        let ghost start = out@;
        self.name.write(out);
        self.filter.write(out);
        self.created_at.write(out);
        proof {
            assert(out@ =~= start + Self::wire(self.deep_view()));
        }
    }

    fn read(b: &[u8]) -> (taken: Option<(RuleDefinition, &[u8])>) {
        match <(RuleName, (RuleFilter, Timestamp)) as Wire>::read(b) {
            Some(((name, (filter, created_at)), rest)) => Some(
                (RuleDefinition { name, filter, created_at }, rest),
            ),
            None => None,
        }
    }
}

} // verus!
