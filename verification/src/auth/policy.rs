//! Shared-access rules.

use vstd::prelude::*;

use crate::auth::role::PermissionSet;
use crate::auth::scope::{ResourceScope, ScopeView};
use crate::bytes;

verus! {

#[derive(Debug, PartialEq, Eq)]
pub enum PolicyError {
    EmptyRuleName,
    EmptyKey,
    NoPermissions,
    DuplicateRule(String),
}

pub enum PolicyErrorView {
    EmptyRuleName,
    EmptyKey,
    NoPermissions,
    DuplicateRule(Seq<char>),
}

impl DeepView for PolicyError {
    type V = PolicyErrorView;

    open spec fn deep_view(&self) -> PolicyErrorView {
        match self {
            PolicyError::EmptyRuleName => PolicyErrorView::EmptyRuleName,
            PolicyError::EmptyKey => PolicyErrorView::EmptyKey,
            PolicyError::NoPermissions => PolicyErrorView::NoPermissions,
            PolicyError::DuplicateRule(name) => PolicyErrorView::DuplicateRule(name@),
        }
    }
}

/// A key that is never shown.
pub struct SharedAccessKey {
    value: String,
}

impl DeepView for SharedAccessKey {
    type V = Seq<char>;

    closed spec fn deep_view(&self) -> Seq<char> {
        self.value@
    }
}

impl SharedAccessKey {
    pub fn new(value: String) -> (key: Result<SharedAccessKey, PolicyError>)
        ensures
            match key {
                Ok(key) => value@.len() > 0 && key.deep_view() == value@,
                Err(error) => value@.len() == 0 && error == PolicyError::EmptyKey,
            },
    {
        if value.as_str().unicode_len() == 0 {
            return Err(PolicyError::EmptyKey);
        }
        Ok(SharedAccessKey { value })
    }

    /// What stands in a listing for any key.
    pub fn describe(&self) -> (text: &'static str)
        ensures
            text@ == "<redacted>"@,
    {
        "<redacted>"
    }

    pub(crate) fn expose(&self) -> (octets: &[u8])
        ensures
            octets@ == bytes::utf8(self.deep_view()),
    {
        self.value.as_str().as_bytes()
    }
}

/// A named set of rights on a scope, and the keys that prove them. Either key
/// does, so that they can be replaced one at a time.
pub struct SharedAccessRule {
    name: String,
    scope: ResourceScope,
    primary_key: SharedAccessKey,
    secondary_key: Option<SharedAccessKey>,
    permissions: PermissionSet,
}

pub struct RuleView {
    pub name: Seq<char>,
    pub scope: ScopeView,
    pub primary_key: Seq<char>,
    pub secondary_key: Option<Seq<char>>,
    pub permissions: PermissionSet,
}

impl DeepView for SharedAccessRule {
    type V = RuleView;

    closed spec fn deep_view(&self) -> RuleView {
        RuleView {
            name: self.name@,
            scope: self.scope.deep_view(),
            primary_key: self.primary_key.deep_view(),
            secondary_key: self.secondary_key.deep_view(),
            permissions: self.permissions,
        }
    }
}

impl SharedAccessRule {
    pub fn new(
        name: String,
        scope: ResourceScope,
        primary_key: SharedAccessKey,
        secondary_key: Option<SharedAccessKey>,
        permissions: PermissionSet,
    ) -> (rule: Result<SharedAccessRule, PolicyError>)
        ensures
            match rule {
                Ok(rule) => {
                    &&& name@.len() > 0
                    &&& permissions != PermissionSet(0)
                    &&& rule.deep_view() == (RuleView {
                        name: name@,
                        scope: scope.deep_view(),
                        primary_key: primary_key.deep_view(),
                        secondary_key: secondary_key.deep_view(),
                        permissions,
                    })
                },
                Err(error) => if name@.len() == 0 {
                    error == PolicyError::EmptyRuleName
                } else {
                    permissions == PermissionSet(0) && error == PolicyError::NoPermissions
                },
            },
    {
        if name.as_str().unicode_len() == 0 {
            return Err(PolicyError::EmptyRuleName);
        }
        if permissions == PermissionSet::none() {
            return Err(PolicyError::NoPermissions);
        }
        Ok(SharedAccessRule { name, scope, primary_key, secondary_key, permissions })
    }

    pub fn name(&self) -> (name: &str)
        ensures
            name@ == self.deep_view().name,
    {
        self.name.as_str()
    }

    pub fn scope(&self) -> (scope: &ResourceScope)
        ensures
            scope.deep_view() == self.deep_view().scope,
    {
        &self.scope
    }

    pub fn permissions(&self) -> (permissions: PermissionSet)
        ensures
            permissions == self.deep_view().permissions,
    {
        self.permissions
    }

    pub(crate) fn primary_key(&self) -> (key: &SharedAccessKey)
        ensures
            key.deep_view() == self.deep_view().primary_key,
    {
        &self.primary_key
    }

    pub(crate) fn secondary_key(&self) -> (key: Option<&SharedAccessKey>)
        ensures
            match key {
                Some(key) => self.deep_view().secondary_key == Some(key.deep_view()),
                None => self.deep_view().secondary_key is None,
            },
    {
        match &self.secondary_key {
            Some(key) => Some(key),
            None => None,
        }
    }
}

/// Where the first rule of a name is, from `i` on.
pub open spec fn rule_place(rules: Seq<RuleView>, name: Seq<char>, i: int) -> Option<int>
    decreases rules.len() - i,
{
    if i < 0 || i >= rules.len() {
        None
    } else if rules[i].name == name {
        Some(i)
    } else {
        rule_place(rules, name, i + 1)
    }
}

/// The rule of a name.
pub open spec fn rule_named(rules: Seq<RuleView>, name: Seq<char>) -> Option<RuleView> {
    match rule_place(rules, name, 0) {
        Some(i) => Some(rules[i]),
        None => None,
    }
}

/// Whether no two rules have the same name.
pub open spec fn names_differ(rules: Seq<RuleView>) -> bool {
    forall|i: int, j: int|
        #![trigger rules[i], rules[j]]
        0 <= i < j < rules.len() ==> rules[i].name != rules[j].name
}

/// The first name that an earlier rule has, from `i` on.
pub open spec fn repeated_name(rules: Seq<RuleView>, i: int) -> Option<Seq<char>>
    decreases rules.len() - i,
{
    if i < 0 || i >= rules.len() {
        None
    } else if rule_place(rules, rules[i].name, 0) != Some(i) {
        Some(rules[i].name)
    } else {
        repeated_name(rules, i + 1)
    }
}

/// Shared-access rules, each under its own name.
pub struct SharedAccessPolicy {
    rules: Vec<SharedAccessRule>,
}

impl DeepView for SharedAccessPolicy {
    type V = Seq<RuleView>;

    closed spec fn deep_view(&self) -> Seq<RuleView> {
        self.rules.deep_view()
    }
}

proof fn place_is_found(rules: Seq<RuleView>, name: Seq<char>, i: int)
    requires
        0 <= i,
    ensures
        match rule_place(rules, name, i) {
            Some(j) => i <= j < rules.len() && rules[j].name == name,
            None => forall|k: int| i <= k < rules.len() ==> (#[trigger] rules[k]).name != name,
        },
    decreases rules.len() - i,
{
    if i < rules.len() && rules[i].name != name {
        place_is_found(rules, name, i + 1);
    }
}

/// The rule of a name, whatever the other rules are, is the one that has it.
pub proof fn a_rule_is_found_by_its_name(rules: Seq<RuleView>, i: int)
    requires
        names_differ(rules),
        0 <= i < rules.len(),
    ensures
        rule_named(rules, rules[i].name) == Some(rules[i]),
{
    place_is_found(rules, rules[i].name, 0);
}

#[verifier::loop_isolation(false)]
fn find_rule(rules: &Vec<SharedAccessRule>, name: &str) -> (found: Option<usize>)
    ensures
        match found {
            Some(i) => i < rules@.len() && rule_place(rules.deep_view(), name@, 0) == Some(i as int),
            None => rule_place(rules.deep_view(), name@, 0) is None,
        },
{
    let ghost all = rules.deep_view();
    let mut i: usize = 0;
    while i < rules.len()
        invariant
            i <= rules@.len() == all.len(),
            rule_place(all, name@, 0) == rule_place(all, name@, i as int),
        decreases rules@.len() - i,
    {
        proof {
            assert(all[i as int] == rules@[i as int].deep_view());
        }
        if bytes::same_text(rules[i].name(), name) {
            return Some(i);
        }
        i = i + 1;
    }
    None
}

impl SharedAccessPolicy {
    /// A policy of rules, of which no two may have the same name.
    #[verifier::loop_isolation(false)]
    pub fn new(rules: Vec<SharedAccessRule>) -> (policy: Result<SharedAccessPolicy, PolicyError>)
        ensures
            match policy {
                Ok(policy) => {
                    &&& repeated_name(rules.deep_view(), 0) is None
                    &&& policy.deep_view() == rules.deep_view()
                    &&& names_differ(policy.deep_view())
                },
                Err(error) => repeated_name(rules.deep_view(), 0) matches Some(name)
                    && error.deep_view() == PolicyErrorView::DuplicateRule(name),
            },
    {
        let ghost all = rules.deep_view();
        let mut i: usize = 0;
        while i < rules.len()
            invariant
                i <= rules@.len() == all.len(),
                repeated_name(all, 0) == repeated_name(all, i as int),
                forall|k: int|
                    0 <= k < i ==> rule_place(all, (#[trigger] all[k]).name, 0) == Some(k),
            decreases rules@.len() - i,
        {
            proof {
                assert(all[i as int] == rules@[i as int].deep_view());
                place_is_found(all, all[i as int].name, 0);
            }
            let name = rules[i].name();
            let repeated: bool = match find_rule(&rules, name) {
                Some(first) => first != i,
                None => true,
            };
            if repeated {
                return Err(PolicyError::DuplicateRule(name.to_owned()));
            }
            i = i + 1;
        }
        proof {
            assert forall|a: int, b: int|
                #![trigger all[a], all[b]]
                0 <= a < b < all.len() implies all[a].name != all[b].name by {
                assert(rule_place(all, all[a].name, 0) == Some(a));
                assert(rule_place(all, all[b].name, 0) == Some(b));
            }
        }
        Ok(SharedAccessPolicy { rules })
    }

    pub(crate) fn rule(&self, name: &str) -> (rule: Option<&SharedAccessRule>)
        ensures
            match rule {
                Some(rule) => rule_named(self.deep_view(), name@) == Some(rule.deep_view()),
                None => rule_named(self.deep_view(), name@) is None,
            },
    {
        match find_rule(&self.rules, name) {
            Some(i) => {
                proof {
                    assert(self.rules.deep_view()[i as int] == self.rules@[i as int].deep_view());
                }
                Some(&self.rules[i])
            },
            None => None,
        }
    }
}

impl Default for SharedAccessPolicy {
    fn default() -> (policy: SharedAccessPolicy)
        ensures
            policy.deep_view() == Seq::<RuleView>::empty(),
    {
        let policy = SharedAccessPolicy { rules: Vec::new() };
        proof {
            assert(policy.deep_view() =~= Seq::<RuleView>::empty());
        }
        policy
    }
}

} // verus!
