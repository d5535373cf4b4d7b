//! What a topic promises: every subscription gets the messages that one of its rules
//! selects, as they were sent, and no others.

use vstd::prelude::*;

use crate::bytes;
use crate::domain::codec;
use crate::domain::command::{CommandView, InputView, OutcomeView};
use crate::domain::error::ErrorView;
use crate::domain::identifier;
use crate::domain::keys;
use crate::domain::machine;
use crate::domain::machine::apply;
use crate::domain::machine::history;
use crate::domain::machine::lifecycle;
use crate::domain::machine::numbering;
use crate::domain::machine::orderly;
use crate::domain::machine::places;
use crate::domain::machine::rules;
use crate::domain::machine::send;
use crate::domain::machine::sending;
use crate::domain::machine::topic;
use crate::domain::message::SequenceNumber;
use crate::domain::order;
use crate::domain::queue;
use crate::domain::queue::QueueConfig;
use crate::domain::rule;
use crate::domain::rule::{PropertiesView, RuleDefinition, RuleDefinitionView, RuleFilterView};
use crate::domain::selection;
use crate::domain::topic::TopicConfig;
use crate::domain::wire::Wire;
use crate::storage;
use crate::storage::Contents;

verus! {

// ---- what it is told in ----------------------------------------------------

/// What a message shows to rules.
pub open spec fn shown(input: InputView) -> PropertiesView {
    if input.envelope is Some {
        input.envelope->Some_0.filter_properties
    } else {
        PropertiesView {
            correlation_id: None,
            message_id: None,
            to: None,
            reply_to: None,
            subject: None,
            session_id: None,
            reply_to_session_id: None,
            content_type: None,
            application_properties: Seq::empty(),
        }
    }
}

/// The identifier that a message shows to rules: its own, if it has one.
pub open spec fn shown_id(input: InputView) -> Option<Seq<char>> {
    if input.message_id.len() > 0 {
        Some(input.message_id)
    } else {
        shown(input).message_id
    }
}

/// Whether what is found is what is demanded, where anything is.
pub open spec fn is_as_demanded(demanded: Option<Seq<char>>, found: Option<Seq<char>>) -> bool {
    demanded is Some ==> found == demanded
}

/// Whether a message has everything that a filter demands.
pub open spec fn has_what_is_demanded(filter: PropertiesView, input: InputView) -> bool {
    &&& is_as_demanded(filter.correlation_id, shown(input).correlation_id)
    &&& is_as_demanded(filter.message_id, shown_id(input))
    &&& is_as_demanded(filter.to, shown(input).to)
    &&& is_as_demanded(filter.reply_to, shown(input).reply_to)
    &&& is_as_demanded(filter.subject, shown(input).subject)
    &&& is_as_demanded(filter.session_id, shown(input).session_id)
    &&& is_as_demanded(filter.reply_to_session_id, shown(input).reply_to_session_id)
    &&& is_as_demanded(filter.content_type, shown(input).content_type)
    &&& forall|i: int|
        0 <= i < filter.application_properties.len() ==> selection::carries(
            shown(input).application_properties,
            (#[trigger] filter.application_properties[i]).0,
            filter.application_properties[i].1,
        )
}

/// Whether a rule is for a message.
pub open spec fn is_for(filter: RuleFilterView, input: InputView) -> bool {
    ||| filter is True
    ||| filter matches RuleFilterView::Correlation(demands) && has_what_is_demanded(demands, input)
}

/// Whether a rule for a message stands under a key.
pub open spec fn holds_a_rule_for(m: Contents, key: Seq<u8>, input: InputView) -> bool {
    machine::value_at::<RuleDefinition>(m, key) matches Ok(Some(found)) && is_for(
        found.filter,
        input,
    )
}

/// Whether a subscription is to have a message: one of its rules is for it.
pub open spec fn is_to_have(
    m: Contents,
    namespace: Seq<char>,
    path: Seq<char>,
    input: InputView,
) -> bool {
    exists|key: Seq<u8>|
        bytes::has_prefix(key, keys::subscription_rule_prefix_key(namespace, path))
            && #[trigger] holds_a_rule_for(m, key, input)
}

// ---- what stands below a prefix --------------------------------------------

/// The values below a prefix are read in the order of their keys.
proof fn values_are_read_in_order<T: Wire>(
    entries: Seq<(Seq<u8>, Seq<u8>)>,
    i: int,
    found: Seq<T::V>,
)
    requires
        0 <= i <= entries.len(),
        found.len() == i,
        forall|k: int|
            0 <= k < i ==> codec::decoded::<T>((#[trigger] entries[k]).1) == Ok::<
                T::V,
                codec::CodecError,
            >(found[k]),
    ensures
        rules::values_from::<T>(entries, i, found) matches Ok(values) ==> {
            &&& values.len() == entries.len()
            &&& forall|k: int|
                0 <= k < entries.len() ==> codec::decoded::<T>((#[trigger] entries[k]).1) == Ok::<
                    T::V,
                    codec::CodecError,
                >(values[k])
        },
    decreases entries.len() - i,
{
    if i < entries.len() {
        if let Ok(value) = codec::decoded::<T>(entries[i].1) {
            values_are_read_in_order::<T>(entries, i + 1, found.push(value));
        }
    }
}

/// Whatever begins with a prefix does not sort before it.
proof fn prefixes_come_first(prefix: Seq<u8>, key: Seq<u8>)
    requires
        bytes::has_prefix(key, prefix),
    ensures
        bytes::lex_le(prefix, key),
{
    if key.len() == prefix.len() {
        assert(key.subrange(0, prefix.len() as int) =~= key);
    } else {
        assert forall|j: int| 0 <= j < prefix.len() implies prefix[j] == key[j] by {
            assert(key.subrange(0, prefix.len() as int)[j] == key[j]);
        }
        assert(bytes::parts_below(prefix, key, prefix.len() as int));
    }
}

/// Where fewer values than asked for stand below a prefix, all of them are read.
pub(crate) proof fn everything_below_is_read<T: Wire>(m: Contents, prefix: Seq<u8>, limit: usize)
    requires
        m.dom().finite(),
        rules::values_below::<T>(m, prefix, limit) is Ok,
        rules::values_below::<T>(m, prefix, limit)->Ok_0.len() < limit,
    ensures
        ({
            let values = rules::values_below::<T>(m, prefix, limit)->Ok_0;
            let walked = storage::walk(m, prefix, prefix);
            &&& values.len() == walked.len()
            &&& forall|k: int|
                0 <= k < walked.len() ==> machine::value_at::<T>(m, #[trigger] walked[k]) == Ok::<
                    Option<T::V>,
                    ErrorView,
                >(Some(values[k]))
            &&& forall|key: Seq<u8>|
                bytes::has_prefix(key, prefix) && m.dom().contains(key) ==> #[trigger]
                walked.contains(key)
            &&& forall|k: int|
                0 <= k < walked.len() ==> bytes::has_prefix(#[trigger] walked[k], prefix)
        }),
{
    let entries = storage::scan(m, prefix, prefix, limit);
    let walked = storage::walk(m, prefix, prefix);
    values_are_read_in_order::<T>(entries, 0, Seq::empty());
    storage::walk_lists_the_selected_keys(m, prefix, prefix);
    let values = rules::values_below::<T>(m, prefix, limit)->Ok_0;
    assert forall|k: int| 0 <= k < walked.len() implies bytes::has_prefix(
        #[trigger] walked[k],
        prefix,
    ) && machine::value_at::<T>(m, walked[k]) == Ok::<Option<T::V>, ErrorView>(Some(values[k])) by {
        assert(entries[k] == (walked[k], m[walked[k]]));
        assert(walked.contains(walked[k]));
        assert(storage::selected(m, prefix, prefix).contains(walked[k]));
    }
    assert forall|key: Seq<u8>|
        bytes::has_prefix(key, prefix) && m.dom().contains(key) implies #[trigger] walked.contains(
        key,
    ) by {
        prefixes_come_first(prefix, key);
        assert(storage::selected(m, prefix, prefix).contains(key));
    }
}

// ---- who is to have a message ----------------------------------------------

/// A filter selects what it is for.
proof fn filters_select_what_they_are_for(filter: RuleFilterView, input: InputView)
    requires
        input.session_id is None,
        rule::canonical_view(topic::inspected(input)) is Ok,
    ensures
        rule::selects(filter, rule::canonical_view(topic::inspected(input))->Ok_0) <==> is_for(
            filter,
            input,
        ),
{
    let actual = rule::canonical_view(topic::inspected(input))->Ok_0;
    selection::only_names_are_folded(topic::inspected(input));
    selection::plain_rules_select_all_or_nothing(actual);
    if let RuleFilterView::Correlation(demands) = filter {
        let found = actual.application_properties;
        assert forall|name: Seq<char>, value: Seq<u8>|
            #[trigger] selection::carries(found, name, value) <==> selection::carries(
                shown(input).application_properties,
                name,
                value,
            ) by {}
        if has_what_is_demanded(demands, input) {
            assert forall|i: int|
                0 <= i < demands.application_properties.len() implies selection::carries(
                found,
                (#[trigger] demands.application_properties[i]).0,
                demands.application_properties[i].1,
            ) by {
                assert(selection::carries(
                    shown(input).application_properties,
                    demands.application_properties[i].0,
                    demands.application_properties[i].1,
                ));
            }
            selection::a_filter_selects_what_agrees_with_it(demands, actual);
        } else {
            selection::a_filter_refuses_what_differs_in_a_member(demands, actual);
            if exists|i: int|
                0 <= i < demands.application_properties.len() && !selection::carries(
                    shown(input).application_properties,
                    (#[trigger] demands.application_properties[i]).0,
                    demands.application_properties[i].1,
                ) {
                let i = choose|i: int|
                    0 <= i < demands.application_properties.len() && !selection::carries(
                        shown(input).application_properties,
                        (#[trigger] demands.application_properties[i]).0,
                        demands.application_properties[i].1,
                    );
                assert(!selection::carries(
                    found,
                    demands.application_properties[i].0,
                    demands.application_properties[i].1,
                ));
                selection::a_filter_refuses_what_lacks_a_property(demands, actual, i);
            }
        }
    }
}

/// The rules that a publication reads are those that the subscription has.
proof fn rules_select_for_their_subscription(
    m: Contents,
    namespace: Seq<char>,
    path: Seq<char>,
    input: InputView,
)
    requires
        m.dom().finite(),
        input.session_id is None,
        rule::canonical_view(topic::inspected(input)) is Ok,
        topic::subscriber(m, namespace, path) is Ok,
    ensures
        topic::any_selects(
            topic::subscriber(m, namespace, path)->Ok_0.rules,
            rule::canonical_view(topic::inspected(input))->Ok_0,
        ) <==> is_to_have(m, namespace, path, input),
{
    let prefix = keys::subscription_rule_prefix_key(namespace, path);
    let found = topic::subscriber(m, namespace, path)->Ok_0.rules;
    let actual = rule::canonical_view(topic::inspected(input))->Ok_0;
    let limit = (rule::MAX_SUBSCRIPTION_RULES + 1) as usize;
    everything_below_is_read::<RuleDefinition>(m, prefix, limit);
    let walked = storage::walk(m, prefix, prefix);
    if topic::any_selects(found, actual) {
        let i = choose|i: int|
            0 <= i < found.len() && rule::selects((#[trigger] found[i]).filter, actual);
        filters_select_what_they_are_for(found[i].filter, input);
        assert(machine::value_at::<RuleDefinition>(m, walked[i]) == Ok::<
            Option<RuleDefinitionView>,
            ErrorView,
        >(Some(found[i])));
        assert(holds_a_rule_for(m, walked[i], input));
    }
    if is_to_have(m, namespace, path, input) {
        let key = choose|key: Seq<u8>|
            bytes::has_prefix(key, prefix) && #[trigger] holds_a_rule_for(m, key, input);
        assert(walked.contains(key));
        let i = choose|i: int| 0 <= i < walked.len() && walked[i] == key;
        assert(machine::value_at::<RuleDefinition>(m, walked[i]) == Ok::<
            Option<RuleDefinitionView>,
            ErrorView,
        >(Some(found[i])));
        filters_select_what_they_are_for(found[i].filter, input);
        assert(rule::selects(found[i].filter, actual));
    }
}

// ---- what is published -----------------------------------------------------

/// Whether a command sends to a topic.
pub open spec fn sends_to_topic(m: Contents, c: CommandView) -> bool {
    &&& c.kind is Send || c.kind is SendBatch
    &&& machine::value_at::<TopicConfig>(
        m,
        keys::topic_config_key(c.namespace, c.entity),
    ) matches Ok(Some(_))
}

/// Whether a topic has a subscription of a name.
pub open spec fn has_subscription(m: Contents, c: CommandView, name: Seq<char>) -> bool {
    &&& orderly::is_name(name)
    &&& m.dom().contains(keys::topic_subscription_key(c.namespace, c.entity, name))
}

proof fn publications_are_read(m: Contents, c: CommandView)
    requires
        sends_to_topic(m, c),
        apply::applied(m, c).0 matches Ok(OutcomeView::Published { .. }),
    ensures
        topic::topic_of(m, c) is Ok,
        lifecycle::subscribed(m, c) matches Ok(paths) && paths.len()
            <= crate::domain::topic::MAX_TOPIC_SUBSCRIPTIONS && topic::subscribers_from(
            m,
            c.namespace,
            paths,
            0,
            Seq::empty(),
        ) is Ok,
        machine::counters_of(m, c) is Ok,
        lifecycle::sent_inputs(c).len() > 0,
        topic::topic_fault_from(topic::topic_of(m, c)->Ok_0, lifecycle::sent_inputs(c), 0) is None,
        ({
            let subscribers = topic::subscribers_from(
                m,
                c.namespace,
                lifecycle::subscribed(m, c)->Ok_0,
                0,
                Seq::empty(),
            )->Ok_0;
            let published = topic::publish_from(
                c,
                topic::topic_of(m, c)->Ok_0,
                lifecycle::sent_inputs(c),
                subscribers,
                0,
                lifecycle::publication_start(m, c),
            );
            &&& published is Ok
            &&& apply::applied(m, c).0->Ok_0->Published_subscriptions == topic::populated_paths(
                lifecycle::subscribed(m, c)->Ok_0,
                published->Ok_0.0.1,
                lifecycle::subscribed(m, c)->Ok_0.len() as int,
            )
            &&& apply::applied(m, c).0->Ok_0->Published_sequences == send::numbers(
                machine::next_number(m, c.namespace, c.entity),
                lifecycle::sent_inputs(c).len(),
            )
        }),
{
}

proof fn published_inputs_are_legible(
    c: CommandView,
    config: TopicConfig,
    inputs: Seq<InputView>,
    subscribers: Seq<topic::Subscriber>,
    k: int,
    state: topic::PublishState,
    i: int,
)
    requires
        0 <= k <= i < inputs.len(),
        topic::publish_from(c, config, inputs, subscribers, k, state) is Ok,
        topic::topic_fault_from(config, inputs, k) is None,
    ensures
        rule::canonical_view(topic::inspected(inputs[i])) is Ok,
        inputs[i].session_id is None,
        inputs[i].scheduled_enqueue_at is None,
    decreases i - k,
{
    if k < i {
        let properties = rule::canonical_view(topic::inspected(inputs[k]))->Ok_0;
        let fanned = topic::fan_out(
            c,
            config,
            inputs[k],
            SequenceNumber(state.1),
            properties,
            subscribers,
            0,
            state.0,
        );
        published_inputs_are_legible(
            c,
            config,
            inputs,
            subscribers,
            k + 1,
            (fanned, queue::bump(state.1)),
            i,
        );
    }
}

/// A subscription of a topic is among those that a publication reads.
proof fn subscriptions_are_read(m: Contents, c: CommandView, name: Seq<char>) -> (k: int)
    requires
        m.dom().finite(),
        orderly::orderly(m),
        places::proper(c.namespace, c.entity),
        lifecycle::subscribed(m, c) is Ok,
        lifecycle::subscribed(m, c)->Ok_0.len() <= crate::domain::topic::MAX_TOPIC_SUBSCRIPTIONS,
        has_subscription(m, c, name),
    ensures
        0 <= k < lifecycle::subscribed(m, c)->Ok_0.len(),
        lifecycle::subscribed(m, c)->Ok_0[k] == identifier::subscription_path(c.entity, name),
{
    let limit = (crate::domain::topic::MAX_TOPIC_SUBSCRIPTIONS + 1) as usize;
    let prefix = keys::topic_subscription_prefix_key(c.namespace, c.entity);
    let key = keys::topic_subscription_key(c.namespace, c.entity, name);
    let paths = lifecycle::subscribed(m, c)->Ok_0;
    everything_below_is_read::<crate::domain::identifier::EntityPath>(m, prefix, limit);
    let walked = storage::walk(m, prefix, prefix);
    let entries = storage::scan(m, prefix, prefix, limit);
    assert(bytes::has_prefix(key, prefix)) by {
        assert(key.subrange(0, prefix.len() as int) =~= prefix);
    }
    assert(walked.contains(key));
    let k = choose|k: int| 0 <= k < walked.len() && walked[k] == key;
    orderly::subscriptions_stand_below_their_topic(m, c.namespace, c.entity, limit);
    assert(entries[k].0 == key);
    assert(orderly::stands_somewhere_below(entries[k].0, paths[k], c.namespace, c.entity));
    let other = choose|other: Seq<char>|
        orderly::stands_below(key, paths[k], c.namespace, c.entity, other);
    assert(key.skip(prefix.len() as int) =~= bytes::utf8(name));
    assert(key.skip(prefix.len() as int) =~= bytes::utf8(other));
    bytes::utf8_injective(name, other);
    k
}

/// Message `i` of a publication reaches every subscription of the topic that has a rule
/// for it, and stands ready there as it was sent, under the number that was answered
/// for it. It ends when the sender asked, or else when the topic says, or else when the
/// subscription does. A subscription that has no rule for it gets nothing.
pub proof fn publications_reach_whom_they_are_for(
    m: Contents,
    c: CommandView,
    name: Seq<char>,
    i: int,
)
    requires
        m.dom().finite(),
        numbering::sound(m),
        orderly::orderly_command(c),
        numbering::numbers_last(m, c),
        sends_to_topic(m, c),
        apply::applied(m, c).0 matches Ok(OutcomeView::Published { .. }),
        has_subscription(m, c, name),
        0 <= i < lifecycle::sent_inputs(c).len(),
    ensures
        ({
            let after = apply::applied(m, c).1;
            let path = identifier::subscription_path(c.entity, name);
            let input = lifecycle::sent_inputs(c)[i];
            let n = SequenceNumber((machine::next_number(m, c.namespace, c.entity) + i) as u64);
            let now = machine::message_at(after, c.namespace, path, n);
            &&& apply::applied(m, c).0->Ok_0->Published_sequences[i] == n
            &&& machine::value_at::<TopicConfig>(
                m,
                keys::topic_config_key(c.namespace, c.entity),
            ) matches Ok(Some(config))
            &&& machine::value_at::<QueueConfig>(
                m,
                keys::queue_config_key(c.namespace, path),
            ) matches Ok(Some(queue))
            &&& is_to_have(m, c.namespace, path, input) ==> {
                &&& now matches Ok(Some(copy))
                &&& copy.sequence == n
                &&& sending::is_as_sent(copy, input, c.issued_at)
                &&& sending::ends_in_time(
                    copy.expires_at,
                    c.issued_at,
                    if input.time_to_live_millis is Some {
                        input.time_to_live_millis
                    } else {
                        config.default_time_to_live_millis
                    },
                    queue.default_time_to_live_millis,
                )
                &&& after.dom().contains(keys::ready_key(c.namespace, path, n))
                &&& copy.expires_at matches Some(at) ==> after.dom().contains(
                    keys::expiry_key(c.namespace, path, at, n),
                )
            }
            &&& !is_to_have(m, c.namespace, path, input) ==> now == Ok::<
                Option<crate::domain::message::RecordView>,
                ErrorView,
            >(None)
        }),
{
    let input = lifecycle::sent_inputs(c)[i];
    let path = identifier::subscription_path(c.entity, name);
    let next = machine::next_number(m, c.namespace, c.entity);
    let n = SequenceNumber((next + i) as u64);
    publications_are_ready_to_go(m, c, name, i);
    let config = topic::topic_of(m, c)->Ok_0;
    let queue = topic::subscriber(m, c.namespace, path)->Ok_0.config;
    copies_are_as_sent(c, input, n, config, queue);
    copies_arrive(m, c, path, i);
    if is_to_have(m, c.namespace, path, input) {
        copies_stand_ready(m, c, path, n);
    }
}

proof fn publications_are_ready_to_go(m: Contents, c: CommandView, name: Seq<char>, i: int)
    requires
        m.dom().finite(),
        numbering::sound(m),
        orderly::orderly_command(c),
        sends_to_topic(m, c),
        apply::applied(m, c).0 matches Ok(OutcomeView::Published { .. }),
        has_subscription(m, c, name),
        0 <= i < lifecycle::sent_inputs(c).len(),
    ensures
        ({
            let input = lifecycle::sent_inputs(c)[i];
            let path = identifier::subscription_path(c.entity, name);
            &&& topic::topic_of(m, c) is Ok
            &&& topic::subscriber(m, c.namespace, path) is Ok
            &&& lifecycle::subscribed(m, c) is Ok
            &&& lifecycle::subscribed(m, c)->Ok_0.contains(path)
            &&& order::clean(path)
            &&& topic::is_subscription_of(m, c.namespace, c.entity, path)
            &&& orderly::orderly_input(input)
            &&& rule::canonical_view(topic::inspected(input)) is Ok
            &&& input.session_id is None
            &&& input.scheduled_enqueue_at is None
            &&& machine::value_at::<TopicConfig>(
                m,
                keys::topic_config_key(c.namespace, c.entity),
            ) == Ok::<Option<TopicConfig>, ErrorView>(Some(topic::topic_of(m, c)->Ok_0))
            &&& machine::value_at::<QueueConfig>(
                m,
                keys::queue_config_key(c.namespace, path),
            ) == Ok::<Option<QueueConfig>, ErrorView>(
                Some(topic::subscriber(m, c.namespace, path)->Ok_0.config),
            )
        }),
{
    let inputs = lifecycle::sent_inputs(c);
    let path = identifier::subscription_path(c.entity, name);
    publications_are_read(m, c);
    let config = topic::topic_of(m, c)->Ok_0;
    let paths = lifecycle::subscribed(m, c)->Ok_0;
    let k = subscriptions_are_read(m, c, name);
    assert(paths.contains(path));
    lifecycle::every_path_has_its_subscriber(m, c.namespace, paths, 0, Seq::empty());
    let subscribers = topic::subscribers_from(m, c.namespace, paths, 0, Seq::empty())->Ok_0;
    assert(Ok::<topic::Subscriber, ErrorView>(subscribers[k]) == topic::subscriber(
        m,
        c.namespace,
        paths[k],
    ));
    published_inputs_are_legible(
        c,
        config,
        inputs,
        subscribers,
        0,
        lifecycle::publication_start(m, c),
        i,
    );
    orderly::subscriptions_stand_below_their_topic(
        m,
        c.namespace,
        c.entity,
        (crate::domain::topic::MAX_TOPIC_SUBSCRIPTIONS + 1) as usize,
    );
    assert(orderly::clean_paths(paths));
    assert(order::clean(paths[k]));
}

proof fn copies_arrive(m: Contents, c: CommandView, path: Seq<char>, i: int)
    requires
        m.dom().finite(),
        numbering::sound(m),
        places::proper(c.namespace, c.entity),
        numbering::numbers_last(m, c),
        sends_to_topic(m, c),
        apply::applied(m, c).0 matches Ok(OutcomeView::Published { .. }),
        0 <= i < lifecycle::sent_inputs(c).len(),
        topic::topic_of(m, c) is Ok,
        topic::subscriber(m, c.namespace, path) is Ok,
        lifecycle::subscribed(m, c) is Ok,
        lifecycle::subscribed(m, c)->Ok_0.contains(path),
        topic::is_subscription_of(m, c.namespace, c.entity, path),
        order::clean(path),
        rule::canonical_view(topic::inspected(lifecycle::sent_inputs(c)[i])) is Ok,
        lifecycle::sent_inputs(c)[i].session_id is None,
        orderly::orderly_record(
            topic::copy_of(
                c,
                lifecycle::sent_inputs(c)[i],
                SequenceNumber((machine::next_number(m, c.namespace, c.entity) + i) as u64),
                topic::topic_of(m, c)->Ok_0,
                topic::subscriber(m, c.namespace, path)->Ok_0.config,
            ),
        ),
    ensures
        ({
            let n = SequenceNumber((machine::next_number(m, c.namespace, c.entity) + i) as u64);
            &&& apply::applied(m, c).0->Ok_0->Published_sequences[i] == n
            &&& machine::message_at(apply::applied(m, c).1, c.namespace, path, n) == Ok::<
                Option<crate::domain::message::RecordView>,
                ErrorView,
            >(
                if is_to_have(m, c.namespace, path, lifecycle::sent_inputs(c)[i]) {
                    Some(
                        topic::copy_of(
                            c,
                            lifecycle::sent_inputs(c)[i],
                            n,
                            topic::topic_of(m, c)->Ok_0,
                            topic::subscriber(m, c.namespace, path)->Ok_0.config,
                        ),
                    )
                } else {
                    None
                },
            )
        }),
{
    let inputs = lifecycle::sent_inputs(c);
    let next = machine::next_number(m, c.namespace, c.entity);
    let n = SequenceNumber((next + i) as u64);
    let sequences = send::numbers(next, inputs.len());
    publications_are_read(m, c);
    all_numbers_differ(next, inputs.len(), i);
    rules_select_for_their_subscription(m, c.namespace, path, inputs[i]);
    lifecycle::publications_reach_the_subscriptions_that_select_them(m, c, path, sequences, i);
    new_numbers_are_free(m, c, path, n);
}

proof fn copies_stand_ready(m: Contents, c: CommandView, path: Seq<char>, n: SequenceNumber)
    requires
        m.dom().finite(),
        numbering::sound(m),
        orderly::orderly_command(c),
        numbering::numbers_last(m, c),
        order::clean(path),
        machine::message_at(apply::applied(m, c).1, c.namespace, path, n) matches Ok(Some(copy))
            && copy.state is Ready && copy.session_id is None,
    ensures
        ({
            let after = apply::applied(m, c).1;
            let copy = machine::message_at(after, c.namespace, path, n)->Ok_0->Some_0;
            &&& after.dom().contains(keys::ready_key(c.namespace, path, n))
            &&& copy.expires_at matches Some(at) ==> after.dom().contains(
                keys::expiry_key(c.namespace, path, at, n),
            )
        }),
{
    let after = apply::applied(m, c).1;
    numbering::commands_keep_stores_sound(m, c);
    numbering::messages_stand_in_the_index_of_their_state(after, c.namespace, path, n);
}

proof fn all_numbers_differ(next: u64, n: nat, i: int)
    requires
        0 <= i < n,
        next + n <= u64::MAX,
    ensures
        send::numbers(next, n).len() == n,
        send::numbers(next, n)[i] == SequenceNumber((next + i) as u64),
        forall|j: int|
            0 <= j < n && j != i ==> send::numbers(next, n)[j] != send::numbers(next, n)[i],
{
    sending::numbers_follow_each_other(next, n, i);
    assert forall|j: int| 0 <= j < n && j != i implies send::numbers(next, n)[j] != send::numbers(
        next,
        n,
    )[i] by {
        sending::numbers_follow_each_other(next, n, j);
    }
}

/// The copy for a subscription is what was sent.
proof fn copies_are_as_sent(
    c: CommandView,
    input: InputView,
    n: SequenceNumber,
    config: TopicConfig,
    queue: QueueConfig,
)
    requires
        orderly::orderly_input(input),
        input.scheduled_enqueue_at is None,
    ensures
        ({
            let copy = topic::copy_of(c, input, n, config, queue);
            &&& orderly::orderly_record(copy)
            &&& copy.sequence == n
            &&& sending::is_as_sent(copy, input, c.issued_at)
            &&& sending::ends_in_time(
                copy.expires_at,
                c.issued_at,
                if input.time_to_live_millis is Some {
                    input.time_to_live_millis
                } else {
                    config.default_time_to_live_millis
                },
                queue.default_time_to_live_millis,
            )
        }),
{
    orderly::new_records_are_orderly(
        c,
        input,
        n,
        send::effective_lifetime(
            send::effective_lifetime(
                input.time_to_live_millis,
                config.default_time_to_live_millis,
            ),
            queue.default_time_to_live_millis,
        ),
    );
}

/// What a topic gives out next stands for nothing yet below it.
proof fn new_numbers_are_free(m: Contents, c: CommandView, path: Seq<char>, n: SequenceNumber)
    requires
        m.dom().finite(),
        numbering::sound(m),
        places::proper(c.namespace, c.entity),
        topic::is_subscription_of(m, c.namespace, c.entity, path),
        order::clean(path),
        n.0 >= machine::next_number(m, c.namespace, c.entity),
    ensures
        machine::message_at(m, c.namespace, path, n) == Ok::<
            Option<crate::domain::message::RecordView>,
            ErrorView,
        >(None),
{
    numbering::subscriptions_have_the_numbers_of_their_topic(m, c.namespace, c.entity, path);
    numbering::next_numbers_are_new(m, c.namespace, c.entity, path, n);
    orderly::messages_stand_under_their_numbers(m, c.namespace, path, n);
}

// ---- what is answered ------------------------------------------------------

proof fn fan_outs_are_noted(
    c: CommandView,
    config: TopicConfig,
    input: InputView,
    sequence: SequenceNumber,
    properties: PropertiesView,
    subscribers: Seq<topic::Subscriber>,
    i: int,
    state: topic::FanoutState,
    k: int,
)
    requires
        0 <= i <= subscribers.len(),
        0 <= k < subscribers.len(),
        state.1.len() == subscribers.len(),
    ensures
        ({
            let noted = topic::fan_out(
                c,
                config,
                input,
                sequence,
                properties,
                subscribers,
                i,
                state,
            ).1;
            &&& noted.len() == subscribers.len()
            &&& noted[k] == (state.1[k] || (i <= k && topic::any_selects(
                subscribers[k].rules,
                properties,
            )))
        }),
    decreases subscribers.len() - i,
{
    if i < subscribers.len() {
        let copy = topic::copy_of(c, input, sequence, config, subscribers[i].config);
        let next = if topic::any_selects(subscribers[i].rules, properties) {
            (
                topic::copy_changes(c, subscribers[i].path, copy, state.0),
                state.1.update(i, true),
            )
        } else {
            state
        };
        fan_outs_are_noted(
            c,
            config,
            input,
            sequence,
            properties,
            subscribers,
            i + 1,
            next,
            k,
        );
    }
}

/// Whether a rule of a subscription selects one of the messages from `from` on.
spec fn some_are_selected(
    inputs: Seq<InputView>,
    rules: Seq<RuleDefinitionView>,
    from: int,
) -> bool {
    exists|j: int|
        from <= j < inputs.len() && topic::any_selects(
            rules,
            rule::canonical_view(topic::inspected(#[trigger] inputs[j]))->Ok_0,
        )
}

proof fn publications_are_noted(
    c: CommandView,
    config: TopicConfig,
    inputs: Seq<InputView>,
    subscribers: Seq<topic::Subscriber>,
    from: int,
    state: topic::PublishState,
    k: int,
)
    requires
        0 <= from <= inputs.len(),
        0 <= k < subscribers.len(),
        state.0.1.len() == subscribers.len(),
        topic::publish_from(c, config, inputs, subscribers, from, state) is Ok,
    ensures
        ({
            let noted = topic::publish_from(
                c,
                config,
                inputs,
                subscribers,
                from,
                state,
            )->Ok_0.0.1;
            &&& noted.len() == subscribers.len()
            &&& noted[k] == (state.0.1[k] || some_are_selected(inputs, subscribers[k].rules, from))
        }),
    decreases inputs.len() - from,
{
    if from < inputs.len() {
        let properties = rule::canonical_view(topic::inspected(inputs[from]))->Ok_0;
        let sequence = SequenceNumber(state.1);
        fan_outs_are_noted(
            c,
            config,
            inputs[from],
            sequence,
            properties,
            subscribers,
            0,
            state.0,
            k,
        );
        let fanned = topic::fan_out(
            c,
            config,
            inputs[from],
            sequence,
            properties,
            subscribers,
            0,
            state.0,
        );
        publications_are_noted(
            c,
            config,
            inputs,
            subscribers,
            from + 1,
            (fanned, queue::bump(state.1)),
            k,
        );
        let rules = subscribers[k].rules;
        if some_are_selected(inputs, rules, from) {
            let j = choose|j: int|
                from <= j < inputs.len() && topic::any_selects(
                    rules,
                    rule::canonical_view(topic::inspected(#[trigger] inputs[j]))->Ok_0,
                );
            if j > from {
                assert(some_are_selected(inputs, rules, from + 1));
            }
        }
        if some_are_selected(inputs, rules, from + 1) {
            let j = choose|j: int|
                from + 1 <= j < inputs.len() && topic::any_selects(
                    rules,
                    rule::canonical_view(topic::inspected(#[trigger] inputs[j]))->Ok_0,
                );
            assert(from <= j < inputs.len());
        }
    }
}

proof fn noted_paths_are_listed(paths: Seq<Seq<char>>, noted: Seq<bool>, n: int, path: Seq<char>)
    requires
        0 <= n <= paths.len(),
        noted.len() == paths.len(),
    ensures
        topic::populated_paths(paths, noted, n).contains(path) <==> exists|k: int|
            0 <= k < n && noted[k] && (#[trigger] paths[k]) == path,
    decreases n,
{
    if n > 0 {
        noted_paths_are_listed(paths, noted, n - 1, path);
        let earlier = topic::populated_paths(paths, noted, n - 1);
        let listed = topic::populated_paths(paths, noted, n);
        if noted[n - 1] {
            assert(listed =~= earlier.push(paths[n - 1]));
            assert(listed[earlier.len() as int] == paths[n - 1]);
            if earlier.contains(path) {
                let a = choose|a: int| 0 <= a < earlier.len() && earlier[a] == path;
                assert(listed[a] == path);
            }
            if listed.contains(path) && path != paths[n - 1] {
                let a = choose|a: int| 0 <= a < listed.len() && listed[a] == path;
                assert(earlier[a] == path);
            }
        }
    }
}

/// Whether a subscription is to have one of the messages of a send.
pub open spec fn is_to_have_any(m: Contents, c: CommandView, path: Seq<char>) -> bool {
    exists|i: int|
        0 <= i < lifecycle::sent_inputs(c).len() && is_to_have(
            m,
            c.namespace,
            path,
            #[trigger] lifecycle::sent_inputs(c)[i],
        )
}

/// The answer to a publication lists the subscriptions that got something: of those
/// that the topic has, the ones with a rule for one of the messages.
pub proof fn receivers_are_listed(m: Contents, c: CommandView, name: Seq<char>)
    requires
        m.dom().finite(),
        numbering::sound(m),
        orderly::orderly_command(c),
        sends_to_topic(m, c),
        apply::applied(m, c).0 matches Ok(OutcomeView::Published { .. }),
        has_subscription(m, c, name),
    ensures
        apply::applied(m, c).0->Ok_0->Published_subscriptions.contains(
            identifier::subscription_path(c.entity, name),
        ) <==> is_to_have_any(m, c, identifier::subscription_path(c.entity, name)),
{
    let inputs = lifecycle::sent_inputs(c);
    let path = identifier::subscription_path(c.entity, name);
    publications_are_read(m, c);
    let config = topic::topic_of(m, c)->Ok_0;
    let paths = lifecycle::subscribed(m, c)->Ok_0;
    let at = subscriptions_are_read(m, c, name);
    lifecycle::every_path_has_its_subscriber(m, c.namespace, paths, 0, Seq::empty());
    let subscribers = topic::subscribers_from(m, c.namespace, paths, 0, Seq::empty())->Ok_0;
    let start = lifecycle::publication_start(m, c);
    let noted = topic::publish_from(c, config, inputs, subscribers, 0, start)->Ok_0.0.1;
    publications_are_noted(c, config, inputs, subscribers, 0, start, at);
    noted_paths_are_listed(paths, noted, paths.len() as int, path);
    assert forall|k: int| 0 <= k < paths.len() && #[trigger] paths[k] == path implies noted[k]
        == is_to_have_any(m, c, path) by {
        publications_are_noted(c, config, inputs, subscribers, 0, start, k);
        assert(Ok::<topic::Subscriber, ErrorView>(subscribers[k]) == topic::subscriber(
            m,
            c.namespace,
            paths[k],
        ));
        let rules = subscribers[k].rules;
        assert forall|j: int| 0 <= j < inputs.len() implies topic::any_selects(
            rules,
            rule::canonical_view(topic::inspected(#[trigger] inputs[j]))->Ok_0,
        ) == is_to_have(m, c.namespace, path, inputs[j]) by {
            published_inputs_are_legible(c, config, inputs, subscribers, 0, start, j);
            rules_select_for_their_subscription(m, c.namespace, path, inputs[j]);
        }
        if some_are_selected(inputs, rules, 0) {
            let j = choose|j: int|
                0 <= j < inputs.len() && topic::any_selects(
                    rules,
                    rule::canonical_view(topic::inspected(#[trigger] inputs[j]))->Ok_0,
                );
            assert(is_to_have(m, c.namespace, path, lifecycle::sent_inputs(c)[j]));
        }
        if is_to_have_any(m, c, path) {
            let j = choose|j: int|
                0 <= j < lifecycle::sent_inputs(c).len() && is_to_have(
                    m,
                    c.namespace,
                    path,
                    #[trigger] lifecycle::sent_inputs(c)[j],
                );
            assert(topic::any_selects(
                rules,
                rule::canonical_view(topic::inspected(inputs[j]))->Ok_0,
            ));
        }
    }
    assert(paths[at] == path);
}

/// Whether a message is one that a topic takes: it is not put off and names no session,
/// its identifier has no more than 128 characters, it is no larger than the topic
/// allows, and it names no property twice.
pub open spec fn is_publishable(m: Contents, c: CommandView, input: InputView) -> bool {
    &&& input.scheduled_enqueue_at is None
    &&& input.session_id is None
    &&& input.message_id.len() <= 128
    &&& sending::counts_as(input) <= topic::topic_of(m, c)->Ok_0.max_message_bytes
    &&& !selection::names_collide(shown(input).application_properties)
}

proof fn publishable_inputs_have_no_fault(config: TopicConfig, inputs: Seq<InputView>, k: int)
    requires
        0 <= k <= inputs.len(),
        forall|i: int|
            0 <= i < inputs.len() ==> (#[trigger] inputs[i]).scheduled_enqueue_at is None
                && inputs[i].session_id is None && inputs[i].message_id.len() <= 128
                && sending::counts_as(inputs[i]) <= config.max_message_bytes,
    ensures
        topic::topic_fault_from(config, inputs, k) is None,
    decreases inputs.len() - k,
{
    if k < inputs.len() {
        assert(inputs[k].scheduled_enqueue_at is None);
        publishable_inputs_have_no_fault(config, inputs, k + 1);
    }
}

proof fn publishable_inputs_are_published(
    c: CommandView,
    config: TopicConfig,
    inputs: Seq<InputView>,
    subscribers: Seq<topic::Subscriber>,
    k: int,
    state: topic::PublishState,
)
    requires
        0 <= k <= inputs.len(),
        forall|i: int|
            0 <= i < inputs.len() ==> !selection::names_collide(
                shown(#[trigger] inputs[i]).application_properties,
            ),
    ensures
        topic::publish_from(c, config, inputs, subscribers, k, state) is Ok,
    decreases inputs.len() - k,
{
    if k < inputs.len() {
        selection::only_names_are_folded(topic::inspected(inputs[k]));
        assert(!selection::names_collide(shown(inputs[k]).application_properties));
        let properties = rule::canonical_view(topic::inspected(inputs[k]))->Ok_0;
        let fanned = topic::fan_out(
            c,
            config,
            inputs[k],
            SequenceNumber(state.1),
            properties,
            subscribers,
            0,
            state.0,
        );
        publishable_inputs_are_published(
            c,
            config,
            inputs,
            subscribers,
            k + 1,
            (fanned, queue::bump(state.1)),
        );
    }
}

/// Whether the subscriptions of a topic and their rules can be read, and are no more
/// than there may be.
pub open spec fn subscribers_are_legible(m: Contents, c: CommandView) -> bool {
    &&& lifecycle::subscribed(m, c) matches Ok(paths)
    &&& paths.len() <= 2_000
    &&& topic::subscribers_from(m, c.namespace, paths, 0, Seq::empty()) is Ok
}

/// A topic takes every message that is publishable, alone or in a batch.
pub proof fn publishable_messages_are_taken(m: Contents, c: CommandView)
    requires
        orderly::orderly(m),
        sends_to_topic(m, c),
        machine::applied_time(m)->Ok_0.0 <= c.issued_at.0,
        subscribers_are_legible(m, c),
        lifecycle::sent_inputs(c).len() > 0,
        forall|i: int|
            0 <= i < lifecycle::sent_inputs(c).len() ==> is_publishable(
                m,
                c,
                #[trigger] lifecycle::sent_inputs(c)[i],
            ),
    ensures
        apply::applied(m, c).0 matches Ok(OutcomeView::Published { .. }),
{
    orderly::clocks_and_counters_are_legible(m, c);
    let config = topic::topic_of(m, c)->Ok_0;
    let inputs = lifecycle::sent_inputs(c);
    let paths = lifecycle::subscribed(m, c)->Ok_0;
    let subscribers = topic::subscribers_from(m, c.namespace, paths, 0, Seq::empty())->Ok_0;
    assert forall|i: int| 0 <= i < inputs.len() implies is_publishable(
        m,
        c,
        #[trigger] inputs[i],
    ) by {
        assert(is_publishable(m, c, lifecycle::sent_inputs(c)[i]));
    }
    publishable_inputs_have_no_fault(config, inputs, 0);
    publishable_inputs_are_published(
        c,
        config,
        inputs,
        subscribers,
        0,
        lifecycle::publication_start(m, c),
    );
}

proof fn faultless_inputs_are_publishable(
    config: TopicConfig,
    inputs: Seq<InputView>,
    k: int,
    i: int,
)
    requires
        0 <= k <= i < inputs.len(),
        topic::topic_fault_from(config, inputs, k) is None,
    ensures
        inputs[i].scheduled_enqueue_at is None,
        inputs[i].session_id is None,
        inputs[i].message_id.len() <= 128,
        sending::counts_as(inputs[i]) <= config.max_message_bytes,
    decreases i - k,
{
    if k < i {
        faultless_inputs_are_publishable(config, inputs, k + 1, i);
    }
}

/// A publication with a message that is not publishable is refused whole. A first
/// message is refused with what is wrong with it.
pub proof fn unpublishable_messages_are_refused(m: Contents, c: CommandView, i: int)
    requires
        sends_to_topic(m, c),
        machine::applied_time(m) matches Ok(time) && time.0 <= c.issued_at.0,
        0 <= i < lifecycle::sent_inputs(c).len(),
        !is_publishable(m, c, lifecycle::sent_inputs(c)[i]),
    ensures
        apply::applied(m, c).0 is Err,
        apply::applied(m, c).1 == m,
        ({
            let input = lifecycle::sent_inputs(c)[0];
            let answer = apply::applied(m, c).0;
            &&& input.scheduled_enqueue_at is Some ==> answer == Err::<OutcomeView, ErrorView>(
                ErrorView::TopicSchedulingNotSupported,
            )
            &&& input.scheduled_enqueue_at is None && input.session_id is Some ==> answer == Err::<
                OutcomeView,
                ErrorView,
            >(ErrorView::TopicSessionNotSupported)
            &&& input.scheduled_enqueue_at is None && input.session_id is None
                && input.message_id.len() > 128 ==> answer == Err::<OutcomeView, ErrorView>(
                ErrorView::MessageIdTooLong {
                    characters: input.message_id.len() as usize,
                    maximum: 128,
                },
            )
        }),
{
    let inputs = lifecycle::sent_inputs(c);
    if apply::applied(m, c).0 is Ok {
        publications_are_read(m, c);
        let config = topic::topic_of(m, c)->Ok_0;
        let paths = lifecycle::subscribed(m, c)->Ok_0;
        let subscribers = topic::subscribers_from(m, c.namespace, paths, 0, Seq::empty())->Ok_0;
        faultless_inputs_are_publishable(config, inputs, 0, i);
        published_inputs_are_legible(
            c,
            config,
            inputs,
            subscribers,
            0,
            lifecycle::publication_start(m, c),
            i,
        );
        selection::only_names_are_folded(topic::inspected(inputs[i]));
    }
}

} // verus!
