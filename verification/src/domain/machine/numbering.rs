//! A number stands for one message: what an entity gives out it gives out once, and
//! a message keeps its number on the way to the dead-letter queue.

use vstd::prelude::*;

use crate::bytes;
use crate::domain::command::{CommandView, KindView};
use crate::domain::identifier;
use crate::domain::identifier::DEAD_LETTER_QUEUE_SUFFIX;
use crate::domain::keys;
use crate::domain::machine;
use crate::domain::machine::apply;
use crate::domain::machine::history;
use crate::domain::machine::isolation;
use crate::domain::machine::orderly;
use crate::domain::machine::places;
use crate::domain::machine::topic;
use crate::domain::message::{DeliveryOrigin, MessageState, SequenceNumber};
use crate::domain::order;
use crate::domain::time::Timestamp;
use crate::domain::topic::MAX_TOPIC_SUBSCRIPTIONS;
use crate::storage;
use crate::storage::Contents;

verus! {

// ---- where numbers come from -----------------------------------------------

/// The path that a dead-letter path shadows.
pub open spec fn shadowed(path: Seq<char>) -> Option<Seq<char>> {
    let parent = path.take(path.len() - DEAD_LETTER_QUEUE_SUFFIX@.len());
    if 0 < DEAD_LETTER_QUEUE_SUFFIX@.len() <= path.len() && path == identifier::dead_letter_path(
        parent,
    ) {
        Some(parent)
    } else {
        None
    }
}

/// The queue at the head of a line of dead-letter queues.
pub open spec fn root(path: Seq<char>) -> Seq<char>
    decreases path.len(),
{
    match shadowed(path) {
        Some(parent) if parent.len() < path.len() => root(parent),
        _ => path,
    }
}

/// The entity that gives out the numbers of the messages under a path: the topic of
/// a subscription, and any other queue its own.
pub open spec fn giver(m: Contents, namespace: Seq<char>, path: Seq<char>) -> Seq<char> {
    let head = root(path);
    if topic::is_subscription(m, namespace, head) {
        choose|topic: Seq<char>| topic::is_subscription_of(m, namespace, topic, head)
    } else {
        head
    }
}

/// A dead-letter queue has the numbers of the queue it shadows.
pub proof fn dead_letters_keep_their_numbers(
    m: Contents,
    namespace: Seq<char>,
    path: Seq<char>,
)
    ensures
        root(identifier::dead_letter_path(path)) == root(path),
        giver(m, namespace, identifier::dead_letter_path(path)) == giver(m, namespace, path),
        identifier::dead_letter_path(path) != path,
{
    let shadow = identifier::dead_letter_path(path);
    identifier::dead_letter_paths_are_longer(path);
    assert(shadow.take(shadow.len() - DEAD_LETTER_QUEUE_SUFFIX@.len()) =~= path);
    assert(shadowed(shadow) == Some(path));
}

/// A queue or a topic gives out its own numbers.
pub proof fn plain_entities_give_their_own_numbers(
    m: Contents,
    namespace: Seq<char>,
    path: Seq<char>,
)
    requires
        places::gives_numbers(m, namespace, path),
    ensures
        root(path) == path,
        giver(m, namespace, path) == path,
{
    if let Some(parent) = shadowed(path) {
        identifier::dead_letter_paths_are_known(parent);
    }
}

/// A subscription has the numbers of its topic.
pub proof fn subscriptions_have_the_numbers_of_their_topic(
    m: Contents,
    namespace: Seq<char>,
    topic: Seq<char>,
    path: Seq<char>,
)
    requires
        topic::is_subscription_of(m, namespace, topic, path),
    ensures
        root(path) == path,
        giver(m, namespace, path) == topic,
{
    let name = places::named_below(m, namespace, topic, path);
    if let Some(parent) = shadowed(path) {
        identifier::no_subscription_is_a_dead_letter_queue(topic, name, parent);
    }
    assert(root(path) == path);
    let found = choose|topic: Seq<char>| topic::is_subscription_of(m, namespace, topic, path);
    let other = places::named_below(m, namespace, found, path);
    identifier::subscriptions_share_no_path(topic, name, found, other);
}

// ---- what holds of a store -------------------------------------------------

/// Whether the number of every message was given out, and stands for no other
/// message in the same line of dead-letter queues.
#[verifier::opaque]
pub open spec fn numbered(m: Contents) -> bool {
    &&& forall|ns: Seq<char>, e: Seq<char>, n: SequenceNumber|
        places::proper(ns, e) && (#[trigger] places::message_in(m, ns, e, n)) is Some ==> n.0
            < machine::next_number(m, ns, giver(m, ns, e))
    &&& forall|ns: Seq<char>, e: Seq<char>, other: Seq<char>, n: SequenceNumber|
        #![trigger places::message_in(m, ns, e, n), places::message_in(m, ns, other, n)]
        places::proper(ns, e) && places::proper(ns, other) && root(e) == root(other)
            && places::message_in(m, ns, e, n) is Some && places::message_in(m, ns, other, n)
            is Some ==> e == other
}

/// Whether every message stands in a queue that was created, or in a line of
/// dead-letter queues behind one.
#[verifier::opaque]
pub open spec fn messages_stand_in_queues(m: Contents) -> bool {
    forall|ns: Seq<char>, e: Seq<char>, n: SequenceNumber|
        places::proper(ns, e) && (#[trigger] places::message_in(m, ns, e, n)) is Some
            ==> m.dom().contains(keys::queue_config_key(ns, root(e)))
}

/// What holds of the store of a broker at any time: it is orderly, every message
/// stands in a queue and in the indexes of its state, every entry of an index leads
/// to its message, messages are scheduled only in queues that take them from senders,
/// and no number stands for two messages.
pub open spec fn sound(m: Contents) -> bool {
    &&& orderly::orderly(m)
    &&& places::indexed(m)
    &&& places::schedules_stand_in_queues(m)
    &&& messages_stand_in_queues(m)
    &&& numbered(m)
}

/// Whether an entity has numbers left for a command.
pub open spec fn numbers_last(m: Contents, c: CommandView) -> bool {
    machine::next_number(m, c.namespace, c.entity) + places::numbers_taken(c) <= u64::MAX
}

proof fn numbers_come_free(m: Contents, c: CommandView)
    requires
        m.dom().finite(),
        sound(m),
        places::proper(c.namespace, c.entity),
        numbers_last(m, c),
    ensures
        places::numbers_are_free(m, c),
{
    reveal(numbered);
    if let Ok(shadow) = machine::shadow_of(c.entity) {
        dead_letters_keep_their_numbers(m, c.namespace, c.entity);
        orderly::internal_paths_are_clean(identifier::dead_letter_path(c.entity));
        assert forall|n: SequenceNumber|
            (#[trigger] places::message_in(m, c.namespace, c.entity, n)) is Some implies
            places::message_in(m, c.namespace, shadow, n) is None by {
            assert(root(c.entity) == root(shadow));
        }
    }
    if places::gives_numbers(m, c.namespace, c.entity) {
        let next = machine::next_number(m, c.namespace, c.entity);
        plain_entities_give_their_own_numbers(m, c.namespace, c.entity);
        assert(places::unused_from(m, c.namespace, c.entity, next));
        let limit = (MAX_TOPIC_SUBSCRIPTIONS + 1) as usize;
        orderly::subscriptions_stand_below_their_topic(m, c.namespace, c.entity, limit);
        if let Ok(paths) = topic::subscriptions_of(m, c.namespace, c.entity, limit) {
            let prefix = keys::topic_subscription_prefix_key(c.namespace, c.entity);
            let entries = storage::scan(m, prefix, prefix, limit);
            places::paths_stand_below(m, c, limit);
            assert forall|i: int| 0 <= i < paths.len() implies places::unused_from(
                m,
                c.namespace,
                #[trigger] paths[i],
                next,
            ) by {
                subscriptions_have_the_numbers_of_their_topic(
                    m,
                    c.namespace,
                    c.entity,
                    paths[i],
                );
            }
            assert forall|i: int, j: int| 0 <= i < j < paths.len() implies paths[i] != paths[j] by {
                let one = subscription_behind(entries[i].0, paths[i], c.namespace, c.entity);
                let other = subscription_behind(entries[j].0, paths[j], c.namespace, c.entity);
                if paths[i] == paths[j] {
                    identifier::subscriptions_share_no_path(c.entity, one, c.entity, other);
                }
                assert(entries[i].0 != entries[j].0);
            }
        }
    }
}

proof fn subscription_behind(
    key: Seq<u8>,
    path: Seq<char>,
    namespace: Seq<char>,
    topic: Seq<char>,
) -> (name: Seq<char>)
    requires
        orderly::stands_somewhere_below(key, path, namespace, topic),
    ensures
        orderly::stands_below(key, path, namespace, topic, name),
{
    choose|name: Seq<char>| orderly::stands_below(key, path, namespace, topic, name)
}

/// What has come to a store has its number from where it belongs.
proof fn arrivals_are_numbered(
    m: Contents,
    now: Contents,
    c: CommandView,
    e: Seq<char>,
    n: SequenceNumber,
)
    requires
        numbered(m),
        messages_stand_in_queues(m),
        places::proper(c.namespace, c.entity),
        places::arrives(m, now, c, e, n),
    ensures
        m.dom().contains(keys::queue_config_key(c.namespace, root(e))),
        root(e) == e && giver(m, c.namespace, e) == c.entity && machine::next_number(
            m,
            c.namespace,
            c.entity,
        ) <= n.0 < machine::next_number(now, c.namespace, c.entity) || {
            &&& machine::shadow_of(c.entity) == Ok::<Seq<char>, crate::domain::error::ErrorView>(e)
            &&& root(e) == root(c.entity)
            &&& giver(m, c.namespace, e) == giver(m, c.namespace, c.entity)
            &&& places::message_in(m, c.namespace, c.entity, n) is Some
            &&& places::message_in(now, c.namespace, c.entity, n) is None
            &&& n.0 < machine::next_number(m, c.namespace, giver(m, c.namespace, c.entity))
        },
{
    reveal(numbered);
    reveal(messages_stand_in_queues);
    dead_letters_keep_their_numbers(m, c.namespace, c.entity);
    if places::gives_numbers(m, c.namespace, c.entity) {
        plain_entities_give_their_own_numbers(m, c.namespace, c.entity);
    }
    if topic::is_subscription_of(m, c.namespace, c.entity, e) {
        subscriptions_have_the_numbers_of_their_topic(m, c.namespace, c.entity, e);
    }
}

/// A queue that was created stays what it is: a subscription of the same topic, or
/// none.
pub proof fn queues_stay_what_they_are(
    m: Contents,
    c: CommandView,
    namespace: Seq<char>,
    path: Seq<char>,
)
    requires
        m.dom().finite(),
        orderly::orderly_command(c),
        places::proper(namespace, path),
        m.dom().contains(keys::queue_config_key(namespace, path)),
    ensures
        apply::applied(m, c).1.dom().contains(keys::queue_config_key(namespace, path)),
        forall|topic: Seq<char>|
            #[trigger] topic::is_subscription_of(apply::applied(m, c).1, namespace, topic, path)
                == topic::is_subscription_of(m, namespace, topic, path),
        topic::is_subscription(apply::applied(m, c).1, namespace, path) == topic::is_subscription(
            m,
            namespace,
            path,
        ),
{
    let now = apply::applied(m, c).1;
    isolation::what_was_created_stays(m, c, keys::queue_config_key(namespace, path));
    assert forall|topic: Seq<char>|
        #[trigger] topic::is_subscription_of(now, namespace, topic, path)
            == topic::is_subscription_of(m, namespace, topic, path) by {
        if topic::is_subscription_of(m, namespace, topic, path) {
            let name = places::named_below(m, namespace, topic, path);
            let key = keys::topic_subscription_key(namespace, topic, name);
            assert(key[0] == keys::TAG_TOPIC_SUBSCRIPTION);
            isolation::what_was_created_stays(m, c, key);
            assert(path == identifier::subscription_path(topic, name));
        }
        if topic::is_subscription_of(now, namespace, topic, path) {
            let name = places::named_below(now, namespace, topic, path);
            let key = keys::topic_subscription_key(namespace, topic, name);
            assert(key[0] == keys::TAG_TOPIC_SUBSCRIPTION);
            isolation::what_was_created_stays(m, c, key);
            if !m.dom().contains(key) {
                new_subscriptions_are_below(m, c, namespace, topic, name);
            }
            assert(path == identifier::subscription_path(topic, name));
        }
    }
    if topic::is_subscription(m, namespace, path) {
        let topic = choose|topic: Seq<char>|
            topic::is_subscription_of(m, namespace, topic, path);
        assert(topic::is_subscription_of(now, namespace, topic, path));
    }
}

proof fn new_subscriptions_are_below(
    m: Contents,
    c: CommandView,
    namespace: Seq<char>,
    topic: Seq<char>,
    name: Seq<char>,
)
    requires
        orderly::orderly_command(c),
        places::proper(namespace, identifier::subscription_path(topic, name)),
        isolation::is_new_subscription(
            m,
            c,
            keys::topic_subscription_key(namespace, topic, name),
        ),
    ensures
        !m.dom().contains(
            keys::queue_config_key(namespace, identifier::subscription_path(topic, name)),
        ),
{
    let path = identifier::subscription_path(topic, name);
    assert forall|i: int| 0 <= i < topic.len() implies !identifier::is_control(
        #[trigger] topic[i],
    ) by {
        assert(path[i] == topic[i]);
    }
    if let KindView::CreateSubscription { name: created, .. } = c.kind {
        let tag = keys::TAG_TOPIC_SUBSCRIPTION;
        let prefix = keys::scope_key(tag, namespace, topic);
        let key = keys::topic_subscription_key(namespace, topic, name);
        assert(key == prefix + bytes::utf8(name));
        assert(key == keys::scope_key(tag, c.namespace, c.entity) + bytes::utf8(created));
        assert(key.subrange(0, prefix.len() as int) =~= prefix);
        order::a_key_lies_in_one_scope(
            tag,
            namespace,
            topic,
            tag,
            c.namespace,
            c.entity,
            bytes::utf8(created),
        );
        assert(key.skip(prefix.len() as int) =~= bytes::utf8(name));
        assert(key.skip(prefix.len() as int) =~= bytes::utf8(created));
        bytes::utf8_injective(name, created);
    }
}

/// The messages of a queue keep the entity that gives out their numbers.
proof fn givers_stay(m: Contents, c: CommandView, namespace: Seq<char>, path: Seq<char>)
    requires
        m.dom().finite(),
        orderly::orderly_command(c),
        places::proper(namespace, path),
        m.dom().contains(keys::queue_config_key(namespace, root(path))),
    ensures
        apply::applied(m, c).1.dom().contains(keys::queue_config_key(namespace, root(path))),
        giver(apply::applied(m, c).1, namespace, path) == giver(m, namespace, path),
{
    heads_are_clean(path);
    queues_stay_what_they_are(m, c, namespace, root(path));
    let now = apply::applied(m, c).1;
    let head = root(path);
    if topic::is_subscription(m, namespace, head) {
        let topic = choose|topic: Seq<char>|
            topic::is_subscription_of(m, namespace, topic, head);
        subscriptions_have_the_numbers_of_their_topic(m, namespace, topic, head);
        subscriptions_have_the_numbers_of_their_topic(now, namespace, topic, head);
        heads_are_their_own(m, namespace, path);
        heads_are_their_own(now, namespace, path);
    }
}

proof fn heads_are_clean(path: Seq<char>)
    requires
        order::clean(path),
    ensures
        order::clean(root(path)),
    decreases path.len(),
{
    if let Some(parent) = shadowed(path) {
        if parent.len() < path.len() {
            assert forall|i: int| 0 <= i < parent.len() implies !identifier::is_control(
                #[trigger] parent[i],
            ) by {
                assert(path[i] == parent[i]);
            }
            heads_are_clean(parent);
        }
    }
}

proof fn numbers_stay_apart(
    m: Contents,
    now: Contents,
    c: CommandView,
    ns: Seq<char>,
    e: Seq<char>,
    other: Seq<char>,
    n: SequenceNumber,
)
    requires
        numbered(m),
        messages_stand_in_queues(m),
        places::proper(c.namespace, c.entity),
        places::arrivals(m, now, c),
        places::proper(ns, e),
        places::proper(ns, other),
        root(e) == root(other),
        places::message_in(now, ns, e, n) is Some,
        places::message_in(now, ns, other, n) is Some,
        places::message_in(m, ns, e, n) is None,
    ensures
        e == other,
{
    reveal(numbered);
    arrivals_are_numbered(m, now, c, e, n);
    if places::message_in(m, ns, other, n) is None {
        arrivals_are_numbered(m, now, c, other, n);
    }
    heads_are_their_own(m, ns, c.entity);
    heads_are_their_own(m, ns, e);
    heads_are_their_own(m, ns, other);
    assert(giver(m, ns, e) == giver(m, ns, other));
}

proof fn heads_are_their_own(m: Contents, namespace: Seq<char>, path: Seq<char>)
    ensures
        root(root(path)) == root(path),
        giver(m, namespace, root(path)) == giver(m, namespace, path),
    decreases path.len(),
{
    if let Some(parent) = shadowed(path) {
        if parent.len() < path.len() {
            heads_are_their_own(m, namespace, parent);
        }
    }
}

/// A store begins sound.
pub proof fn stores_begin_sound()
    ensures
        sound(Map::empty()),
{
    reveal(numbered);
    reveal(messages_stand_in_queues);
    reveal(places::schedules_stand_in_queues);
    orderly::stores_begin_orderly();
    places::stores_begin_indexed();
}

proof fn messages_stay_in_queues(m: Contents, c: CommandView)
    requires
        m.dom().finite(),
        numbered(m),
        messages_stand_in_queues(m),
        orderly::orderly_command(c),
        places::arrivals(m, apply::applied(m, c).1, c),
    ensures
        messages_stand_in_queues(apply::applied(m, c).1),
{
    let now = apply::applied(m, c).1;
    reveal(messages_stand_in_queues);
    assert forall|ns: Seq<char>, e: Seq<char>, n: SequenceNumber|
        places::proper(ns, e) && (#[trigger] places::message_in(now, ns, e, n))
            is Some implies now.dom().contains(keys::queue_config_key(ns, root(e))) by {
        if places::message_in(m, ns, e, n) is None {
            arrivals_are_numbered(m, now, c, e, n);
        }
        givers_stay(m, c, ns, e);
    }
}

proof fn schedules_stay_in_queues(m: Contents, c: CommandView)
    requires
        m.dom().finite(),
        places::schedules_stand_in_queues(m),
        orderly::orderly_command(c),
    ensures
        places::schedules_stand_in_queues(apply::applied(m, c).1),
{
    let now = apply::applied(m, c).1;
    reveal(places::schedules_stand_in_queues);
    assert forall|ns: Seq<char>, e: Seq<char>, at: Timestamp, n: SequenceNumber|
        places::proper(ns, e) && now.dom().contains(
            #[trigger] keys::scheduled_key(ns, e, at, n),
        ) implies places::gives_numbers(now, ns, e) && now.dom().contains(
        keys::queue_config_key(ns, e),
    ) by {
        let key = keys::scheduled_key(ns, e, at, n);
        assert(key[0] == keys::TAG_SCHEDULED);
        isolation::what_was_created_stays(m, c, key);
        if !m.dom().contains(key) {
            let (when, number) = choose|when: Timestamp, number: SequenceNumber|
                key == #[trigger] keys::scheduled_key(c.namespace, c.entity, when, number);
            let prefix = keys::scope_key(keys::TAG_SCHEDULED, ns, e);
            let rest = bytes::be(when.0 as nat, 8) + bytes::be(number.0 as nat, 8);
            assert(key.subrange(0, prefix.len() as int) =~= prefix);
            assert(key =~= keys::scope_key(keys::TAG_SCHEDULED, c.namespace, c.entity) + rest);
            order::a_key_lies_in_one_scope(
                keys::TAG_SCHEDULED,
                ns,
                e,
                keys::TAG_SCHEDULED,
                c.namespace,
                c.entity,
                rest,
            );
        }
        queues_stay_what_they_are(m, c, ns, e);
    }
}

/// Every command leaves a sound store sound, whether it is accepted or not, as long
/// as there are numbers left.
pub proof fn commands_keep_stores_sound(m: Contents, c: CommandView)
    requires
        m.dom().finite(),
        sound(m),
        orderly::orderly_command(c),
        numbers_last(m, c),
    ensures
        sound(apply::applied(m, c).1),
{
    let now = apply::applied(m, c).1;
    numbers_come_free(m, c);
    orderly::commands_keep_stores_orderly(m, c);
    places::commands_keep_messages_in_place(m, c);
    messages_stay_in_queues(m, c);
    schedules_stay_in_queues(m, c);
    assert(numbered(now)) by {
        assert forall|ns: Seq<char>, e: Seq<char>, n: SequenceNumber|
            places::proper(ns, e) && (#[trigger] places::message_in(now, ns, e, n))
                is Some implies n.0 < machine::next_number(now, ns, giver(now, ns, e)) by {
            isolation::numbers_are_never_given_back(m, c, ns, giver(m, ns, e));
            if places::message_in(m, ns, e, n) is Some {
                reveal(numbered);
                reveal(messages_stand_in_queues);
            } else {
                arrivals_are_numbered(m, now, c, e, n);
            }
            givers_stay(m, c, ns, e);
        }
        assert forall|ns: Seq<char>, e: Seq<char>, other: Seq<char>, n: SequenceNumber|
            #![trigger places::message_in(now, ns, e, n), places::message_in(now, ns, other, n)]
            places::proper(ns, e) && places::proper(ns, other) && root(e) == root(other)
                && places::message_in(now, ns, e, n) is Some && places::message_in(
                now,
                ns,
                other,
                n,
            ) is Some implies e == other by {
            if places::message_in(m, ns, e, n) is None {
                numbers_stay_apart(m, now, c, ns, e, other, n);
            } else if places::message_in(m, ns, other, n) is None {
                numbers_stay_apart(m, now, c, ns, other, e, n);
            } else {
                reveal(numbered);
            }
        }
        reveal(numbered);
    }
}

/// Whether there are numbers left for every command of a history.
pub open spec fn numbers_last_throughout(m: Contents, commands: Seq<CommandView>) -> bool {
    forall|i: int|
        0 <= i < commands.len() ==> numbers_last(
            history::replayed(m, #[trigger] commands.take(i)).1,
            commands[i],
        )
}

/// However many commands are applied to it, a store stays sound, as long as there
/// are numbers left.
pub proof fn stores_stay_sound(m: Contents, commands: Seq<CommandView>)
    requires
        m.dom().finite(),
        sound(m),
        forall|i: int|
            0 <= i < commands.len() ==> orderly::orderly_command(#[trigger] commands[i]),
        numbers_last_throughout(m, commands),
    ensures
        sound(history::replayed(m, commands).1),
    decreases commands.len(),
{
    if commands.len() > 0 {
        let earlier = commands.drop_last();
        let last = commands.len() - 1;
        assert forall|i: int| 0 <= i < earlier.len() implies orderly::orderly_command(
            #[trigger] earlier[i],
        ) by {
            assert(earlier[i] == commands[i]);
        }
        assert forall|i: int| 0 <= i < earlier.len() implies numbers_last(
            history::replayed(m, #[trigger] earlier.take(i)).1,
            earlier[i],
        ) by {
            assert(earlier.take(i) =~= commands.take(i));
        }
        stores_stay_sound(m, earlier);
        orderly::stores_stay_orderly(m, earlier);
        let before = history::replayed(m, earlier).1;
        assert(orderly::orderly_command(commands[last]));
        assert(commands.take(last) =~= earlier);
        commands_keep_stores_sound(before, commands.last());
    }
}

// ---- what it is good for ---------------------------------------------------

/// A message is in its queue or in the dead-letter queue, never in both.
pub proof fn a_message_is_in_one_place(
    m: Contents,
    namespace: Seq<char>,
    entity: Seq<char>,
    n: SequenceNumber,
)
    requires
        sound(m),
        places::proper(namespace, entity),
        places::message_in(m, namespace, entity, n) is Some,
    ensures
        places::message_in(m, namespace, identifier::dead_letter_path(entity), n) is None,
{
    reveal(numbered);
    reveal_strlit("/$deadletterqueue");
    dead_letters_keep_their_numbers(m, namespace, entity);
    assert(places::proper(namespace, identifier::dead_letter_path(entity)));
}

/// A number that is given out next stands for no message yet: not in the queue, not
/// in its dead-letter queue, and not below the topic.
pub proof fn next_numbers_are_new(
    m: Contents,
    namespace: Seq<char>,
    entity: Seq<char>,
    path: Seq<char>,
    n: SequenceNumber,
)
    requires
        sound(m),
        places::proper(namespace, path),
        giver(m, namespace, path) == entity,
        n.0 >= machine::next_number(m, namespace, entity),
    ensures
        places::message_in(m, namespace, path, n) is None,
{
    reveal(numbered);
}

/// A ready message is in the index that receivers walk, and while it is there its
/// lifetime runs; a locked, deferred or scheduled message is in the index of its own
/// state.
pub proof fn messages_stand_in_the_index_of_their_state(
    m: Contents,
    namespace: Seq<char>,
    entity: Seq<char>,
    n: SequenceNumber,
)
    requires
        sound(m),
        places::proper(namespace, entity),
    ensures
        places::message_in(m, namespace, entity, n) matches Some(record) ==> {
            &&& record.sequence == n
            &&& m.dom().contains(places::place(namespace, entity, record))
            &&& record.state is Ready ==> (record.expires_at matches Some(at) ==> m.dom().contains(
                keys::expiry_key(namespace, entity, at, n),
            ))
        },
{
    reveal(places::indexed);
    assert(places::well_placed(m, namespace, entity, n));
    if let Some(record) = places::message_in(m, namespace, entity, n) {
        let own = places::place(namespace, entity, record);
        assert(places::marks(namespace, entity, record, own));
        if record.state is Ready && record.expires_at is Some {
            let lifetime = keys::expiry_key(namespace, entity, record.expires_at->Some_0, n);
            assert(places::marks(namespace, entity, record, lifetime));
        }
    }
}

/// A locked message was ready or deferred before, and its lock is in the index of
/// locks.
pub proof fn locked_messages_came_from_an_index(
    m: Contents,
    namespace: Seq<char>,
    entity: Seq<char>,
    n: SequenceNumber,
)
    requires
        sound(m),
        places::proper(namespace, entity),
    ensures
        places::message_in(m, namespace, entity, n) matches Some(record) ==> {
            &&& record.state matches MessageState::Locked { origin, locked_until, .. } ==> origin
                != DeliveryOrigin::Scheduled && m.dom().contains(
                keys::lock_key(namespace, entity, locked_until, n),
            )
            &&& record.state is Scheduled ==> record.scheduled_enqueue_at is Some
        },
{
    messages_stand_in_the_index_of_their_state(m, namespace, entity, n);
    reveal(places::indexed);
    assert(places::well_placed(m, namespace, entity, n));
}

/// An entry of an index leads to a message whose state it stands for.
pub proof fn entries_lead_to_messages(m: Contents, key: Seq<u8>) -> (found: (
    Seq<char>,
    Seq<char>,
    SequenceNumber,
))
    requires
        sound(m),
        m.dom().contains(key),
        places::is_mark(key),
    ensures
        places::accounted(m, key, found.0, found.1, found.2),
{
    reveal(places::indexed);
    choose|namespace: Seq<char>, entity: Seq<char>, n: SequenceNumber|
        places::accounted(m, key, namespace, entity, n)
}

} // verus!
