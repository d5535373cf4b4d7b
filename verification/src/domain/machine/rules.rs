//! Durable actionless subscription rules and bounded rule browsing.

use vstd::prelude::*;

use crate::domain::codec;
use crate::domain::command::{Command, CommandOutcome, CommandView, OutcomeView};
use crate::domain::error;
use crate::domain::error::{BrokerError, ErrorView};
use crate::domain::identifier;
use crate::domain::identifier::{EntityPath, NamespaceName, RuleName};
use crate::domain::keys;
use crate::domain::machine;
use crate::domain::machine::shared;
use crate::domain::machine::{StateMachine, Step};
use crate::domain::rule;
use crate::domain::rule::{
    RuleDefinition, RuleDefinitionView, RuleFilter, RuleFilterView, MAX_RULE_PAGE,
    MAX_SUBSCRIPTION_RULES,
};
use crate::domain::wire::Wire;
use crate::storage;
use crate::storage::{Contents, OpView, StateStore, WriteBatch};

verus! {

// ---- what is decided -------------------------------------------------------

/// `found` followed by the values of the entries from index `i` on.
pub open spec fn values_from<T: Wire>(
    entries: Seq<(Seq<u8>, Seq<u8>)>,
    i: int,
    found: Seq<T::V>,
) -> Result<Seq<T::V>, ErrorView>
    decreases entries.len() - i,
{
    if i >= entries.len() {
        Ok(found)
    } else {
        match codec::decoded::<T>(entries[i].1) {
            Err(error) => Err(ErrorView::Codec(error)),
            Ok(value) => values_from::<T>(entries, i + 1, found.push(value)),
        }
    }
}

/// The values of the first `limit` entries below `prefix`.
pub open spec fn values_below<T: Wire>(m: Contents, prefix: Seq<u8>, limit: usize) -> Result<
    Seq<T::V>,
    ErrorView,
> {
    values_from::<T>(storage::scan(m, prefix, prefix, limit), 0, Seq::empty())
}

/// Every rule of a subscription, in the order of names.
pub open spec fn rules_of(m: Contents, namespace: Seq<char>, subscription: Seq<char>) -> Result<
    Seq<RuleDefinitionView>,
    ErrorView,
> {
    match values_below::<RuleDefinition>(
        m,
        keys::subscription_rule_prefix_key(namespace, subscription),
        (MAX_SUBSCRIPTION_RULES + 1) as usize,
    ) {
        Err(error) => Err(error),
        Ok(rules) => if rules.len() > MAX_SUBSCRIPTION_RULES {
            Err(ErrorView::RuleLimitExceeded { maximum: MAX_SUBSCRIPTION_RULES })
        } else {
            Ok(rules)
        },
    }
}

/// What stops an entity from being a subscription that exists.
pub open spec fn subscription_fault(m: Contents, namespace: Seq<char>, entity: Seq<char>) -> Option<
    ErrorView,
> {
    if identifier::names_dead_letter_queue(entity) || !identifier::names_subscription(entity) {
        Some(ErrorView::SubscriptionNotFound)
    } else {
        match machine::queue_at(m, namespace, entity) {
            Err(error) => Some(error),
            Ok(None) => Some(ErrorView::SubscriptionNotFound),
            Ok(Some(_)) => None,
        }
    }
}

/// What is wrong with a page size.
pub open spec fn page_fault(max_rules: u32) -> Option<ErrorView> {
    if max_rules == 0 {
        Some(ErrorView::EmptyRulePage)
    } else if max_rules > MAX_RULE_PAGE {
        Some(ErrorView::RulePageTooLarge { requested: max_rules, maximum: MAX_RULE_PAGE })
    } else {
        None
    }
}

/// At most `n` of the values behind the first `skip`.
pub open spec fn page<T>(s: Seq<T>, skip: int, n: int) -> Seq<T> {
    if skip >= s.len() {
        Seq::empty()
    } else if skip + n >= s.len() {
        s.skip(skip)
    } else {
        s.subrange(skip, skip + n)
    }
}

/// One page of the rules of a subscription.
pub open spec fn rules_page(
    m: Contents,
    namespace: Seq<char>,
    subscription: Seq<char>,
    skip: u32,
    max_rules: u32,
) -> Result<Seq<RuleDefinitionView>, ErrorView> {
    match page_fault(max_rules) {
        Some(error) => Err(error),
        None => match subscription_fault(m, namespace, subscription) {
            Some(error) => Err(error),
            None => match rules_of(m, namespace, subscription) {
                Err(error) => Err(error),
                Ok(rules) => Ok(page(rules, skip as int, max_rules as int)),
            },
        },
    }
}

/// What adding a rule does.
pub open spec fn create_rule_step(
    m: Contents,
    c: CommandView,
    name: Seq<char>,
    filter: RuleFilterView,
    batch: Seq<OpView>,
) -> Step {
    match subscription_fault(m, c.namespace, c.entity) {
        Some(error) => Err(error),
        None => match rule::canonical_filter(filter) {
            Err(error) => Err(ErrorView::RuleConfig(error)),
            Ok(filter) => {
                let key = keys::subscription_rule_key(c.namespace, c.entity, name);
                if m.dom().contains(key) {
                    Err(ErrorView::RuleAlreadyExists { name })
                } else {
                    match rules_of(m, c.namespace, c.entity) {
                        Err(error) => Err(error),
                        Ok(rules) => if rules.len() >= MAX_SUBSCRIPTION_RULES {
                            Err(ErrorView::RuleLimitExceeded { maximum: MAX_SUBSCRIPTION_RULES })
                        } else {
                            Ok(
                                (
                                    batch.push(
                                        shared::put(
                                            key,
                                            codec::encoded::<RuleDefinition>(
                                                RuleDefinitionView {
                                                    name,
                                                    filter,
                                                    created_at: c.issued_at,
                                                },
                                            ),
                                        ),
                                    ),
                                    OutcomeView::RuleCreated,
                                ),
                            )
                        },
                    }
                }
            },
        },
    }
}

/// What removing a rule does.
pub open spec fn delete_rule_step(
    m: Contents,
    c: CommandView,
    name: Seq<char>,
    batch: Seq<OpView>,
) -> Step {
    match subscription_fault(m, c.namespace, c.entity) {
        Some(error) => Err(error),
        None => {
            let key = keys::subscription_rule_key(c.namespace, c.entity, name);
            if m.dom().contains(key) {
                Ok((batch.push(shared::drop_key(key)), OutcomeView::RuleDeleted))
            } else {
                Err(ErrorView::RuleNotFound { name })
            }
        },
    }
}

/// What listing rules does.
pub open spec fn list_rules_step(
    m: Contents,
    c: CommandView,
    skip: u32,
    max_rules: u32,
    batch: Seq<OpView>,
) -> Step {
    match rules_page(m, c.namespace, c.entity, skip, max_rules) {
        Err(error) => Err(error),
        Ok(rules) => Ok((batch, OutcomeView::RulesListed { rules })),
    }
}

// ---- how it is done --------------------------------------------------------

fn validate_page(max_rules: u32) -> (valid: Result<(), BrokerError>)
    ensures
        match valid {
            Ok(_) => page_fault(max_rules) is None,
            Err(error) => page_fault(max_rules) == Some(error.deep_view()) && !(error is Storage),
        },
{
    if max_rules == 0 {
        return Err(BrokerError::EmptyRulePage);
    }
    if max_rules > MAX_RULE_PAGE {
        return Err(
            BrokerError::RulePageTooLarge { requested: max_rules, maximum: MAX_RULE_PAGE },
        );
    }
    Ok(())
}

impl<S: StateStore> StateMachine<S> {
    /// The values of the first `limit` entries below `prefix`.
    #[verifier::loop_isolation(false)]
    pub(crate) fn read_below<T: Wire>(&self, prefix: &[u8], limit: usize) -> (values: Result<
        Vec<T>,
        BrokerError,
    >)
        ensures
            error::agrees(
                self.reliable(),
                values,
                values_below::<T>(self.contents(), prefix@, limit),
            ),
            values is Ok ==> values->Ok_0@.len() <= limit,
    {
        let entries = self.scan_prefix(prefix, limit)?;
        let ghost scanned = storage::entries_view(entries@);
        let ghost whole = values_from::<T>(scanned, 0, Seq::empty());
        let mut values: Vec<T> = Vec::new();
        let mut i: usize = 0;
        proof {
            assert(values.deep_view() =~= Seq::<T::V>::empty());
        }
        while i < entries.len()
            invariant
                i <= entries@.len(),
                values@.len() == i,
                values_from::<T>(scanned, i as int, values.deep_view()) == whole,
            decreases entries@.len() - i,
        {
            match codec::decode::<T>(entries[i].1.as_slice()) {
                Err(error) => {
                    return Err(BrokerError::Codec(error));
                },
                Ok(value) => {
                    let ghost before = values.deep_view();
                    let ghost found = value.deep_view();
                    values.push(value);
                    proof {
                        assert(values.deep_view() =~= before.push(found));
                    }
                },
            }
            i = i + 1;
        }
        Ok(values)
    }

    pub(crate) fn all_rules(&self, namespace: &NamespaceName, subscription: &EntityPath) -> (rules:
        Result<Vec<RuleDefinition>, BrokerError>)
        ensures
            error::agrees(
                self.reliable(),
                rules,
                rules_of(self.contents(), namespace.deep_view(), subscription.deep_view()),
            ),
    {
        let prefix = keys::subscription_rule_prefix(namespace, subscription);
        let rules = self.read_below::<RuleDefinition>(
            prefix.as_slice(),
            MAX_SUBSCRIPTION_RULES + 1,
        )?;
        if rules.len() > MAX_SUBSCRIPTION_RULES {
            return Err(BrokerError::RuleLimitExceeded { maximum: MAX_SUBSCRIPTION_RULES });
        }
        Ok(rules)
    }

    fn ensure_subscription(&self, namespace: &NamespaceName, entity: &EntityPath) -> (there: Result<
        (),
        BrokerError,
    >)
        ensures
            match there {
                Ok(_) => subscription_fault(
                    self.contents(),
                    namespace.deep_view(),
                    entity.deep_view(),
                ) is None,
                Err(BrokerError::Storage(_)) => !self.reliable(),
                Err(error) => subscription_fault(
                    self.contents(),
                    namespace.deep_view(),
                    entity.deep_view(),
                ) == Some(error.deep_view()),
            },
    {
        if entity.is_dead_letter_queue() || !entity.is_subscription() {
            return Err(BrokerError::SubscriptionNotFound);
        }
        match self.queue_config(namespace, entity)? {
            Some(_) => Ok(()),
            None => Err(BrokerError::SubscriptionNotFound),
        }
    }

    /// Lists durable rules in canonical-name order.
    #[verifier::loop_isolation(false)]
    pub fn rules(
        &self,
        namespace: &NamespaceName,
        subscription: &EntityPath,
        skip: u32,
        max_rules: u32,
    ) -> (rules: Result<Vec<RuleDefinition>, BrokerError>)
        ensures
            error::agrees(
                self.reliable(),
                rules,
                rules_page(
                    self.contents(),
                    namespace.deep_view(),
                    subscription.deep_view(),
                    skip,
                    max_rules,
                ),
            ),
    {
        validate_page(max_rules)?;
        self.ensure_subscription(namespace, subscription)?;
        let all = self.all_rules(namespace, subscription)?;
        let ghost whole = all.deep_view();
        let mut rules: Vec<RuleDefinition> = Vec::new();
        let mut i: usize = 0;
        while i < all.len()
            invariant
                i <= all@.len(),
                rules@.len() == if i <= skip {
                    0int
                } else if i - skip <= max_rules {
                    i - skip
                } else {
                    max_rules as int
                },
                forall|k: int|
                    0 <= k < rules@.len() ==> (#[trigger] rules.deep_view()[k]) == whole[skip + k],
            decreases all@.len() - i,
        {
            if i as u64 >= skip as u64 && (rules.len() as u64) < max_rules as u64 {
                let ghost before = rules.deep_view();
                let rule = all[i].clone();
                let ghost found = rule.deep_view();
                rules.push(rule);
                proof {
                    assert(rules.deep_view() =~= before.push(found));
                    assert(found == whole[i as int]);
                    assert forall|k: int| 0 <= k < rules@.len() implies (
                    #[trigger] rules.deep_view()[k]) == whole[skip + k] by {
                        if k < before.len() {
                            assert(before[k] == whole[skip + k]);
                        }
                    }
                }
            }
            i = i + 1;
        }
        proof {
            assert(rules.deep_view() =~= page(whole, skip as int, max_rules as int));
        }
        Ok(rules)
    }

    pub(crate) fn create_rule(
        &self,
        command: &Command,
        name: &RuleName,
        filter: &RuleFilter,
        batch: &mut WriteBatch,
    ) -> (outcome: Result<CommandOutcome, BrokerError>)
        ensures
            machine::stepped(
                self.reliable(),
                outcome,
                final(batch).deep_view(),
                create_rule_step(
                    self.contents(),
                    command.deep_view(),
                    name.deep_view(),
                    filter.deep_view(),
                    old(batch).deep_view(),
                ),
            ),
    {
        self.ensure_subscription(&command.namespace, &command.entity)?;
        let filter = match filter.canonicalized() {
            Ok(filter) => filter,
            Err(error) => return Err(BrokerError::RuleConfig(error)),
        };
        let key = keys::subscription_rule(&command.namespace, &command.entity, name);
        if self.lookup(key.as_slice())?.is_some() {
            return Err(BrokerError::RuleAlreadyExists { name: name.clone() });
        }
        let rules = self.all_rules(&command.namespace, &command.entity)?;
        if rules.len() >= MAX_SUBSCRIPTION_RULES {
            return Err(BrokerError::RuleLimitExceeded { maximum: MAX_SUBSCRIPTION_RULES });
        }
        let definition = RuleDefinition {
            name: name.clone(),
            filter,
            created_at: command.issued_at,
        };
        batch.push_put(key, codec::store(&definition));
        Ok(CommandOutcome::RuleCreated)
    }

    pub(crate) fn delete_rule(
        &self,
        command: &Command,
        name: &RuleName,
        batch: &mut WriteBatch,
    ) -> (outcome: Result<CommandOutcome, BrokerError>)
        ensures
            machine::stepped(
                self.reliable(),
                outcome,
                final(batch).deep_view(),
                delete_rule_step(
                    self.contents(),
                    command.deep_view(),
                    name.deep_view(),
                    old(batch).deep_view(),
                ),
            ),
    {
        self.ensure_subscription(&command.namespace, &command.entity)?;
        let key = keys::subscription_rule(&command.namespace, &command.entity, name);
        if self.lookup(key.as_slice())?.is_none() {
            return Err(BrokerError::RuleNotFound { name: name.clone() });
        }
        batch.push_delete(key);
        Ok(CommandOutcome::RuleDeleted)
    }

    pub(crate) fn list_rules(
        &self,
        command: &Command,
        skip: u32,
        max_rules: u32,
        batch: &WriteBatch,
    ) -> (outcome: Result<CommandOutcome, BrokerError>)
        ensures
            machine::stepped(
                self.reliable(),
                outcome,
                batch.deep_view(),
                list_rules_step(
                    self.contents(),
                    command.deep_view(),
                    skip,
                    max_rules,
                    batch.deep_view(),
                ),
            ),
    {
        let rules = self.rules(&command.namespace, &command.entity, skip, max_rules)?;
        Ok(CommandOutcome::RulesListed { rules })
    }
}

} // verus!
