//! Hats, the registry that holds them, and the configuration around them.
use vstd::prelude::*;

use crate::order::{ascends, code_points, codes, key_less, keys_of, lemma_ascending_is_unique,
    lemma_codes_injective, lemma_key_less_total, lemma_order_of, order_of, places, sort_positions,
    stands_before};
use crate::text::{first_index, lemma_first_index, lemma_is_first_index, str_eq};
use crate::topic::{any_matches, law_lists_of_topics, matches_any, topic_matches, Topic};

verus! {

/// A role that reacts to some events and publishes others.
#[derive(Debug)]
pub struct Hat {
    pub id: String,
    pub name: String,
    pub description: String,
    pub subscriptions: Vec<Topic>,
    pub publishes: Vec<Topic>,
    pub instructions: String,
}

impl Hat {
    /// A hat that reacts to nothing and publishes nothing.
    pub fn new(id: &str, name: &str) -> (r: Hat)
        ensures
            r.id@ == id@,
            r.name@ == name@,
            r.description@ == Seq::<char>::empty(),
            r.subscriptions@ == Seq::<Topic>::empty(),
            r.publishes@ == Seq::<Topic>::empty(),
            r.instructions@ == Seq::<char>::empty(),
    {
        Hat {
            id: id.to_owned(),
            name: name.to_owned(),
            description: String::new(),
            subscriptions: Vec::new(),
            publishes: Vec::new(),
            instructions: String::new(),
        }
    }
}

/// How the event loop starts and ends.
#[derive(Debug)]
pub struct EventLoopConfig {
    /// The event that the loop begins with; without one, Ralph coordinates.
    pub starting_event: Option<String>,
    /// The topic that ends the loop.
    pub completion_promise: String,
}

/// How backends are called.
#[derive(Debug)]
pub struct CliConfig {
    /// The name of the backend, or `auto`.
    pub backend: String,
}

/// The part of the configuration that the hat commands read.
#[derive(Debug)]
pub struct RalphConfig {
    pub event_loop: EventLoopConfig,
    pub cli: CliConfig,
}

/// The configured hats, one for each ID, in the order in which they are walked.
#[derive(Debug)]
pub struct HatRegistry {
    hats: Vec<Hat>,
}

/// No two hats have the same ID.
pub open spec fn ids_distinct(hats: Seq<Hat>) -> bool {
    forall|i: int, j: int|
        0 <= i < j < hats.len() ==> (#[trigger] hats[i]).id@ != (#[trigger] hats[j]).id@
}

pub open spec fn has_id(id: Seq<char>) -> spec_fn(Hat) -> bool {
    |h: Hat| h.id@ == id
}

/// The hats after `hat` is registered: it takes the place of the hat with its ID, or comes last.
pub open spec fn registered(hats: Seq<Hat>, hat: Hat) -> Seq<Hat> {
    let n = first_index(hats, has_id(hat.id@));
    if n < hats.len() {
        hats.update(n, hat)
    } else {
        hats.push(hat)
    }
}

/// Some hat subscribes to `topic`.
pub open spec fn subscribed(hats: Seq<Hat>, topic: Seq<char>) -> bool {
    exists|i: int| 0 <= i < hats.len() && any_matches((#[trigger] hats[i]).subscriptions@, topic)
}

pub open spec fn subscribes_to(topic: Seq<char>) -> spec_fn(Hat) -> bool {
    |h: Hat| any_matches(h.subscriptions@, topic)
}

/// The sort keys of the hats' display names.
pub open spec fn name_keys(hats: Seq<Hat>) -> Seq<Seq<u32>> {
    Seq::new(hats.len(), |i: int| codes(hats[i].name@))
}

/// The hats by display name; those with the same name keep their order.
pub open spec fn by_name(hats: Seq<Hat>) -> Seq<Hat> {
    Seq::new(hats.len(), |i: int| hats[order_of(name_keys(hats))[i]])
}

/// The hats that are referred to.
pub open spec fn hats_of(v: Seq<&Hat>) -> Seq<Hat> {
    Seq::new(v.len(), |i: int| *v[i])
}

/// Registering a hat keeps the IDs distinct.
pub proof fn lemma_registered_keeps_ids_distinct(hats: Seq<Hat>, hat: Hat)
    requires
        ids_distinct(hats),
    ensures
        ids_distinct(registered(hats, hat)),
{
    lemma_first_index(hats, has_id(hat.id@));
    let n = first_index(hats, has_id(hat.id@));
    let after = registered(hats, hat);
    assert forall|i: int, j: int| 0 <= i < j < after.len() implies (#[trigger] after[i]).id@ != (
    #[trigger] after[j]).id@ by {
        if n == hats.len() && j == n {
            assert(!has_id(hat.id@)(hats[i]));
        } else if i == n {
            assert(hats[i].id@ != hats[j].id@);
        } else if j == n {
            assert(hats[i].id@ != hats[j].id@);
        } else {
            assert(hats[i].id@ != hats[j].id@);
        }
    }
}

impl HatRegistry {
    /// The hats, in the order in which they are walked.
    pub closed spec fn hats(&self) -> Seq<Hat> {
        self.hats@
    }

    pub fn new() -> (r: HatRegistry)
        ensures
            r.hats() == Seq::<Hat>::empty(),
            ids_distinct(r.hats()),
    {
        HatRegistry { hats: Vec::new() }
    }

    /// Adds a hat. A hat that is already there with the same ID gives way.
    pub fn register(&mut self, hat: Hat)
        ensures
            final(self).hats() == registered(old(self).hats(), hat),
            ids_distinct(old(self).hats()) ==> ids_distinct(final(self).hats()),
    {
        let ghost before = self.hats@;
        let mut i: usize = 0;
        while i < self.hats.len() && !str_eq(self.hats[i].id.as_str(), hat.id.as_str())
            invariant
                self.hats@ == before,
                i <= before.len(),
                forall|k: int| 0 <= k < i ==> !has_id(hat.id@)(#[trigger] before[k]),
            ensures
                self.hats@ == before,
                i <= before.len(),
                forall|k: int| 0 <= k < i ==> !has_id(hat.id@)(#[trigger] before[k]),
                i < before.len() ==> has_id(hat.id@)(before[i as int]),
            decreases before.len() - i,
        {
            i = i + 1;
        }
        proof {
            lemma_is_first_index(before, has_id(hat.id@), i as int);
            if ids_distinct(before) {
                lemma_registered_keeps_ids_distinct(before, hat);
            }
        }
        if i < self.hats.len() {
            self.hats.set(i, hat);
        } else {
            self.hats.push(hat);
        }
    }

    pub fn len(&self) -> (r: usize)
        ensures
            r == self.hats().len(),
    {
        self.hats.len()
    }

    pub fn is_empty(&self) -> (r: bool)
        ensures
            r == (self.hats().len() == 0),
    {
        self.hats.len() == 0
    }

    /// All hats, in the order in which they are walked.
    pub fn all(&self) -> (r: &Vec<Hat>)
        ensures
            r@ == self.hats(),
    {
        &self.hats
    }

    /// True if some hat subscribes to `topic`.
    pub fn has_subscriber(&self, topic: &str) -> (r: bool)
        ensures
            r == subscribed(self.hats(), topic@),
    {
        for i in 0..self.hats.len()
            invariant
                forall|k: int|
                    0 <= k < i ==> !any_matches((#[trigger] self.hats@[k]).subscriptions@, topic@),
        {
            if matches_any(&self.hats[i].subscriptions, topic) {
                return true;
            }
        }
        false
    }

    /// The first hat that subscribes to `topic`.
    pub fn get_for_topic(&self, topic: &str) -> (r: Option<&Hat>)
        ensures
            match r {
                Some(hat) => subscribed(self.hats(), topic@) && *hat == self.hats()[first_index(
                    self.hats(),
                    subscribes_to(topic@),
                )],
                None => !subscribed(self.hats(), topic@),
            },
    {
        for i in 0..self.hats.len()
            invariant
                forall|k: int| 0 <= k < i ==> !subscribes_to(topic@)(#[trigger] self.hats@[k]),
        {
            if matches_any(&self.hats[i].subscriptions, topic) {
                proof {
                    lemma_is_first_index(self.hats@, subscribes_to(topic@), i as int);
                }
                return Some(&self.hats[i]);
            }
        }
        assert(forall|k: int|
            0 <= k < self.hats@.len() ==> !any_matches(
                (#[trigger] self.hats@[k]).subscriptions@,
                topic@,
            )) by {
            assert(forall|k: int|
                0 <= k < self.hats@.len() ==> !subscribes_to(topic@)(#[trigger] self.hats@[k]));
        }
        None
    }

    /// All hats, in the order in which they are walked.
    pub fn walk(&self) -> (r: Vec<&Hat>)
        ensures
            hats_of(r@) == self.hats(),
    {
        let mut out: Vec<&Hat> = Vec::new();
        for i in 0..self.hats.len()
            invariant
                out@.len() == i,
                forall|k: int| 0 <= k < i ==> *(#[trigger] out@[k]) == self.hats@[k],
        {
            out.push(&self.hats[i]);
        }
        assert(hats_of(out@) =~= self.hats@);
        out
    }

    /// All hats by display name.
    pub fn sorted(&self) -> (r: Vec<&Hat>)
        ensures
            hats_of(r@) == by_name(self.hats()),
    {
        let mut keys: Vec<Vec<u32>> = Vec::new();
        for i in 0..self.hats.len()
            invariant
                keys@.len() == i,
                forall|k: int| 0 <= k < i ==> (#[trigger] keys@[k])@ == codes(self.hats@[k].name@),
        {
            keys.push(code_points(self.hats[i].name.as_str()));
        }
        assert(keys_of(keys@) =~= name_keys(self.hats@));
        let order = sort_positions(&keys);
        let ghost o = order_of(name_keys(self.hats@));
        let mut out: Vec<&Hat> = Vec::new();
        for i in 0..order.len()
            invariant
                o == order_of(name_keys(self.hats@)),
                o == places(order@),
                o.len() == self.hats@.len(),
                forall|a: int| 0 <= a < o.len() ==> 0 <= #[trigger] o[a] < self.hats@.len(),
                out@.len() == i,
                forall|k: int| 0 <= k < i ==> *(#[trigger] out@[k]) == by_name(self.hats@)[k],
        {
            assert(o[i as int] == order@[i as int]);
            out.push(&self.hats[order[i]]);
        }
        assert(hats_of(out@) =~= by_name(self.hats@));
        out
    }
}

// ---------------------------------------------------------------------------
// Laws
// ---------------------------------------------------------------------------
/// Sorting by name keeps the hats: none is lost and none is added.
pub proof fn law_sorting_keeps_the_hats(hats: Seq<Hat>, hat: Hat)
    ensures
        by_name(hats).len() == hats.len(),
        by_name(hats).contains(hat) <==> hats.contains(hat),
{
    let order = order_of(name_keys(hats));
    let sorted = by_name(hats);
    lemma_order_of(name_keys(hats));
    if sorted.contains(hat) {
        let i = choose|i: int| 0 <= i < sorted.len() && sorted[i] == hat;
        assert(hats[order[i]] == hat);
    }
    if hats.contains(hat) {
        let j = choose|j: int| 0 <= j < hats.len() && hats[j] == hat;
        assert(order.contains(j));
        let i = choose|i: int| 0 <= i < order.len() && order[i] == j;
        assert(sorted[i] == hat);
    }
}

/// Sorted by name, no hat stands behind one with a larger name.
pub proof fn law_sorted_hats_ascend(hats: Seq<Hat>, i: int, j: int)
    requires
        0 <= i < j < hats.len(),
    ensures
        !key_less(codes(by_name(hats)[j].name@), codes(by_name(hats)[i].name@)),
{
    let keys = name_keys(hats);
    let order = order_of(keys);
    lemma_order_of(keys);
    assert(stands_before(keys, order[i], order[j]));
    assert(keys[order[i]] == codes(by_name(hats)[i].name@));
    assert(keys[order[j]] == codes(by_name(hats)[j].name@));
    lemma_key_less_total(keys[order[i]], keys[order[j]]);
}

/// A hat that was registered is there, and every hat with another ID is there as before.
pub proof fn law_registering_adds_the_hat(hats: Seq<Hat>, hat: Hat, other: Hat)
    requires
        other.id@ != hat.id@,
    ensures
        registered(hats, hat).contains(hat),
        registered(hats, hat).contains(other) <==> hats.contains(other),
{
    lemma_first_index(hats, has_id(hat.id@));
    let n = first_index(hats, has_id(hat.id@));
    let after = registered(hats, hat);
    assert(after[n] == hat);
    if hats.contains(other) {
        let i = choose|i: int| 0 <= i < hats.len() && hats[i] == other;
        assert(i != n);
        assert(after[i] == other);
    }
    if after.contains(other) {
        let i = choose|i: int| 0 <= i < after.len() && after[i] == other;
        assert(i != n);
        assert(hats[i] == other);
    }
}

/// No two hats have the same display name.
pub open spec fn names_distinct(hats: Seq<Hat>) -> bool {
    forall|i: int, j: int|
        0 <= i < j < hats.len() ==> (#[trigger] hats[i]).name@ != (#[trigger] hats[j]).name@
}

pub open spec fn name_key() -> spec_fn(Hat) -> Seq<u32> {
    |h: Hat| codes(h.name@)
}

proof fn lemma_by_name_ascends(hats: Seq<Hat>)
    requires
        names_distinct(hats),
    ensures
        ascends(by_name(hats), name_key()),
{
    let keys = name_keys(hats);
    let order = order_of(keys);
    let sorted = by_name(hats);
    lemma_order_of(keys);
    assert forall|i: int, j: int| 0 <= i < j < sorted.len() implies key_less(
        name_key()(#[trigger] sorted[i]),
        name_key()(#[trigger] sorted[j]),
    ) by {
        let a = order[i];
        let b = order[j];
        assert(stands_before(keys, a, b));
        assert(keys[a] == codes(hats[a].name@) && keys[b] == codes(hats[b].name@));
        lemma_key_less_total(keys[a], keys[a]);
        if keys[a] == keys[b] {
            lemma_codes_injective(hats[a].name@, hats[b].name@);
            assert(hats[a].name@ != hats[b].name@);
        }
    }
}

/// Where display names are distinct, the hats by name do not depend on the order in which they
/// were registered.
pub proof fn law_by_name_ignores_registration_order(one: Seq<Hat>, other: Seq<Hat>)
    requires
        names_distinct(one),
        names_distinct(other),
        forall|hat: Hat| one.contains(hat) <==> other.contains(hat),
    ensures
        by_name(one) == by_name(other),
{
    lemma_by_name_ascends(one);
    lemma_by_name_ascends(other);
    assert forall|hat: Hat| by_name(one).contains(hat) <==> by_name(other).contains(hat) by {
        law_sorting_keeps_the_hats(one, hat);
        law_sorting_keeps_the_hats(other, hat);
        assert(one.contains(hat) <==> other.contains(hat));
    }
    lemma_ascending_is_unique(by_name(one), by_name(other), name_key());
}

/// A topic has a subscriber exactly if some subscription of some hat covers it.
pub proof fn law_subscribers_have_a_subscription(hats: Seq<Hat>, topic: Seq<char>)
    ensures
        subscribed(hats, topic) <==> exists|i: int, j: int|
            0 <= i < hats.len() && 0 <= j < hats[i].subscriptions@.len() && topic_matches(
                (#[trigger] hats[i].subscriptions@[j]).text@,
                topic,
            ),
{
    if subscribed(hats, topic) {
        let i = choose|i: int|
            0 <= i < hats.len() && any_matches((#[trigger] hats[i]).subscriptions@, topic);
        law_lists_of_topics(hats[i].subscriptions@, topic);
        let j = choose|j: int|
            0 <= j < hats[i].subscriptions@.len() && topic_matches(
                (#[trigger] hats[i].subscriptions@[j]).text@,
                topic,
            );
        assert(topic_matches(hats[i].subscriptions@[j].text@, topic));
    }
    if exists|i: int, j: int|
        0 <= i < hats.len() && 0 <= j < hats[i].subscriptions@.len() && topic_matches(
            (#[trigger] hats[i].subscriptions@[j]).text@,
            topic,
        ) {
        let (i, j) = choose|i: int, j: int|
            0 <= i < hats.len() && 0 <= j < hats[i].subscriptions@.len() && topic_matches(
                (#[trigger] hats[i].subscriptions@[j]).text@,
                topic,
            );
        law_lists_of_topics(hats[i].subscriptions@, topic);
        assert(any_matches(hats[i].subscriptions@, topic));
    }
}

/// The subscriber of a topic is the first hat with a subscription that covers it.
pub proof fn law_the_first_subscriber_answers(hats: Seq<Hat>, topic: Seq<char>, i: int, j: int)
    requires
        0 <= i < hats.len(),
        0 <= j < hats[i].subscriptions@.len(),
        topic_matches(hats[i].subscriptions@[j].text@, topic),
        forall|h: int, k: int|
            0 <= h < i && 0 <= k < hats[h].subscriptions@.len() ==> !topic_matches(
                (#[trigger] hats[h].subscriptions@[k]).text@,
                topic,
            ),
    ensures
        subscribed(hats, topic),
        first_index(hats, subscribes_to(topic)) == i,
{
    law_lists_of_topics(hats[i].subscriptions@, topic);
    assert(any_matches(hats[i].subscriptions@, topic));
    assert forall|h: int| 0 <= h < i implies !subscribes_to(topic)(#[trigger] hats[h]) by {
        law_lists_of_topics(hats[h].subscriptions@, topic);
    }
    lemma_is_first_index(hats, subscribes_to(topic), i);
}

/// Hats with the same name keep their order when they are sorted by name.
pub proof fn law_sorting_is_stable(hats: Seq<Hat>, a: int, b: int) -> (r: (int, int))
    requires
        0 <= a < b < hats.len(),
        hats[a].name@ == hats[b].name@,
    ensures
        0 <= r.0 < r.1 < hats.len(),
        by_name(hats)[r.0] == hats[a],
        by_name(hats)[r.1] == hats[b],
{
    let keys = name_keys(hats);
    let order = order_of(keys);
    lemma_order_of(keys);
    assert(order.contains(a) && order.contains(b));
    let i = choose|i: int| 0 <= i < order.len() && order[i] == a;
    let j = choose|j: int| 0 <= j < order.len() && order[j] == b;
    assert(keys[a] == keys[b]);
    lemma_key_less_total(keys[a], keys[a]);
    if j < i {
        assert(stands_before(keys, order[j], order[i]));
    }
    (i, j)
}

/// A hat whose ID is new comes last; one whose ID is there takes the place of the hat with that ID.
/// All other hats stay where they are.
pub proof fn law_registering_keeps_places(hats: Seq<Hat>, hat: Hat, i: int)
    requires
        0 <= i < hats.len(),
        forall|k: int| 0 <= k < i ==> (#[trigger] hats[k]).id@ != hat.id@,
    ensures
        hats[i].id@ == hat.id@ ==> registered(hats, hat) == hats.update(i, hat),
        (forall|k: int| 0 <= k < hats.len() ==> (#[trigger] hats[k]).id@ != hat.id@) ==> registered(
            hats,
            hat,
        ) == hats.push(hat),
{
    if hats[i].id@ == hat.id@ {
        lemma_is_first_index(hats, has_id(hat.id@), i);
    }
    if forall|k: int| 0 <= k < hats.len() ==> (#[trigger] hats[k]).id@ != hat.id@ {
        lemma_is_first_index(hats, has_id(hat.id@), hats.len() as int);
    }
}

/// Hats that are referred to are the hats themselves, in their places.
pub proof fn law_references_keep_their_places(hats: Seq<&Hat>, i: int)
    requires
        0 <= i < hats.len(),
    ensures
        hats_of(hats).len() == hats.len(),
        hats_of(hats)[i] == *hats[i],
{
}

} // verus!
