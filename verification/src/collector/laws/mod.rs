//! What holds of tracking and of the samples over a whole update.

use super::{failures_among, lemma_synced_all, outdated, synced};
use crate::docker::{DockerError, DockerResult};
use crate::string_map::{
    added, distinct_keys, dropped, has_key, key_at, keys, lemma_added, lemma_added_front,
    lemma_retained, lemma_value_at, lemma_value_in_front, retained, value_under,
};
use vstd::prelude::*;

pub mod containers;
pub mod images;
pub mod measures;
pub mod names;
pub mod published;
pub mod update;
pub mod volumes;

verus! {

proof fn lemma_listed_keys<T>(listed: Seq<(Seq<char>, T)>, key: Seq<char>)
    ensures
        keys(listed).contains(key) == has_key(listed, key),
{
    if has_key(listed, key) {
        let i = choose|i: int| key_at(listed, key, i);
        assert(keys(listed)[i] == key);
    }
    if keys(listed).contains(key) {
        let i = choose|i: int| 0 <= i < keys(listed).len() && keys(listed)[i] == key;
        assert(key_at(listed, key, i));
    }
}

/// After a listing exactly what is listed is tracked, each key once.
pub proof fn what_is_listed_is_tracked<T>(
    known: Seq<(Seq<char>, T)>,
    listed: Seq<(Seq<char>, T)>,
)
    requires
        distinct_keys(known),
    ensures
        distinct_keys(synced(known, listed)),
        forall|key: Seq<char>|
            #![trigger has_key(synced(known, listed), key)]
            #![trigger has_key(listed, key)]
            has_key(synced(known, listed), key) <==> has_key(listed, key),
{
    lemma_retained(known, keys(listed));
    lemma_added(retained(known, keys(listed)), listed);
    assert forall|key: Seq<char>| has_key(synced(known, listed), key) <==> has_key(
        listed,
        key,
    ) by {
        lemma_listed_keys(listed, key);
    }
}

/// What is tracked stays as it was first tracked for as long as it is listed, whatever the
/// listings say of it.
pub proof fn what_stays_listed_stays_as_it_was<T>(
    known: Seq<(Seq<char>, T)>,
    listed: Seq<(Seq<char>, T)>,
    key: Seq<char>,
)
    requires
        distinct_keys(known),
        has_key(known, key),
        has_key(listed, key),
    ensures
        has_key(synced(known, listed), key),
        value_under(synced(known, listed), key) == value_under(known, key),
{
    let kept = retained(known, keys(listed));
    lemma_listed_keys(listed, key);
    lemma_retained(known, keys(listed));
    lemma_added(kept, listed);
    lemma_value_in_front(kept, synced(known, listed), key);
}

/// What comes to be tracked is what the first listing of its key shows.
pub proof fn first_listing_counts<T>(
    known: Seq<(Seq<char>, T)>,
    listed: Seq<(Seq<char>, T)>,
    i: int,
)
    requires
        distinct_keys(known),
        0 <= i < listed.len(),
        !has_key(known, listed[i].0),
        forall|j: int| 0 <= j < i ==> (#[trigger] listed[j]).0 != listed[i].0,
    ensures
        has_key(synced(known, listed), listed[i].0),
        value_under(synced(known, listed), listed[i].0) == listed[i].1,
{
    let kept = retained(known, keys(listed));
    let key = listed[i].0;
    let now = added(kept, listed.take(i));
    let next = added(kept, listed.take(i + 1));
    lemma_retained(known, keys(listed));
    lemma_added(kept, listed.take(i));
    lemma_added(kept, listed.take(i + 1));
    lemma_added(kept, listed);
    lemma_added_front(kept, listed, i + 1);
    assert(listed.take(i + 1).drop_last() =~= listed.take(i));
    assert(!has_key(listed.take(i), key)) by {
        if has_key(listed.take(i), key) {
            let j = choose|j: int| key_at(listed.take(i), key, j);
            assert(listed[j].0 != key);
        }
    }
    lemma_value_at(next, now.len() as int);
    lemma_value_in_front(next, synced(known, listed), key);
}

/// What is tracked no more after a listing is what was tracked and is not listed.
pub proof fn what_is_not_listed_is_outdated<T>(
    known: Seq<(Seq<char>, T)>,
    listed: Seq<(Seq<char>, T)>,
    value: T,
)
    requires
        distinct_keys(known),
    ensures
        outdated(known, listed).contains(value) <==> exists|key: Seq<char>|
            has_key(known, key) && !has_key(listed, key) && #[trigger] value_under(known, key)
                == value,
{
    let gone = dropped(known, keys(listed));
    lemma_retained(known, keys(listed));
    if outdated(known, listed).contains(value) {
        let i = choose|i: int|
            0 <= i < outdated(known, listed).len() && outdated(known, listed)[i] == value;
        let key = gone[i].0;
        lemma_value_at(gone, i);
        lemma_listed_keys(listed, key);
        assert(value_under(known, key) == value);
    }
    if exists|key: Seq<char>|
        has_key(known, key) && !has_key(listed, key) && #[trigger] value_under(known, key)
            == value {
        let key = choose|key: Seq<char>|
            has_key(known, key) && !has_key(listed, key) && #[trigger] value_under(known, key)
                == value;
        lemma_listed_keys(listed, key);
        assert(has_key(gone, key));
        let i = choose|i: int| key_at(gone, key, i);
        lemma_value_at(gone, i);
        assert(outdated(known, listed)[i] == value);
    }
}

/// The same listing once more changes nothing of what is tracked.
pub proof fn a_listing_repeated_changes_nothing<T>(
    known: Seq<(Seq<char>, T)>,
    listed: Seq<(Seq<char>, T)>,
)
    requires
        distinct_keys(known),
    ensures
        synced(synced(known, listed), listed) == synced(known, listed),
        outdated(synced(known, listed), listed) == Seq::<T>::empty(),
{
    let once = synced(known, listed);
    what_is_listed_is_tracked(known, listed);
    assert forall|i: int| 0 <= i < once.len() implies keys(listed).contains(
        (#[trigger] once[i]).0,
    ) by {
        lemma_value_at(once, i);
        lemma_listed_keys(listed, once[i].0);
    }
    lemma_all_retained(once, keys(listed));
    assert forall|i: int| 0 <= i < listed.len() implies has_key(once, (#[trigger] listed[i]).0) by {
        assert(key_at(listed, listed[i].0, i));
        assert(has_key(listed, listed[i].0));
    }
    lemma_none_added(once, listed);
}

proof fn lemma_all_retained<T>(s: Seq<(Seq<char>, T)>, k: Seq<Seq<char>>)
    requires
        forall|i: int| 0 <= i < s.len() ==> k.contains((#[trigger] s[i]).0),
    ensures
        retained(s, k) == s,
        dropped(s, k) == Seq::<(Seq<char>, T)>::empty(),
    decreases s.len(),
{
    reveal(Seq::filter);
    if s.len() > 0 {
        assert forall|i: int| 0 <= i < s.drop_last().len() implies k.contains(
            (#[trigger] s.drop_last()[i]).0,
        ) by {
            assert(k.contains(s[i].0));
        }
        lemma_all_retained(s.drop_last(), k);
        assert(k.contains(s[s.len() - 1].0));
        assert(s =~= s.drop_last().push(s.last()));
    } else {
        assert(s =~= Seq::empty());
    }
}

proof fn lemma_none_added<T>(s: Seq<(Seq<char>, T)>, others: Seq<(Seq<char>, T)>)
    requires
        forall|i: int| 0 <= i < others.len() ==> has_key(s, (#[trigger] others[i]).0),
    ensures
        added(s, others) == s,
    decreases others.len(),
{
    if others.len() > 0 {
        assert forall|i: int| 0 <= i < others.drop_last().len() implies has_key(
            s,
            (#[trigger] others.drop_last()[i]).0,
        ) by {
            assert(has_key(s, others[i].0));
        }
        lemma_none_added(s, others.drop_last());
        assert(has_key(s, others[others.len() - 1].0));
    }
}

/// Every failed update of a container counts once, and nothing else does.
pub proof fn every_failure_counts(results: Seq<DockerResult<()>>)
    ensures
        failures_among(results).len() == results.filter(|r: DockerResult<()>| r is Err).len(),
        failures_among(results).len() == 0 <==> forall|i: int|
            0 <= i < results.len() ==> (#[trigger] results[i]) is Ok,
    decreases results.len(),
{
    reveal(Seq::filter);
    if results.len() > 0 {
        let front = results.drop_last();
        every_failure_counts(front);
        if forall|i: int| 0 <= i < front.len() ==> (#[trigger] front[i]) is Ok {
            assert forall|i: int| 0 <= i < results.len() - 1 implies (#[trigger] results[i]) is Ok by {
                assert(front[i] is Ok);
            }
        } else {
            let i = choose|i: int| 0 <= i < front.len() && !((#[trigger] front[i]) is Ok);
            assert(results[i] !is Ok);
        }
        assert(results[results.len() - 1] == results.last());
    }
}

/// What is listed is tracked: what was tracked already, as it was; else what the first listing
/// of its key shows.
pub proof fn tracking_follows_the_listing<T>(
    known: Seq<(Seq<char>, T)>,
    listed: Seq<(Seq<char>, T)>,
    i: int,
)
    requires
        distinct_keys(known),
        0 <= i < listed.len(),
    ensures
        forall|k: int|
            0 <= k < known.len() && (#[trigger] known[k]).0 == listed[i].0 ==> synced(
                known,
                listed,
            ).contains(known[k]),
        (forall|k: int| 0 <= k < known.len() ==> (#[trigger] known[k]).0 != listed[i].0) && (
        forall|j: int| 0 <= j < i ==> (#[trigger] listed[j]).0 != listed[i].0) ==> synced(
            known,
            listed,
        ).contains(listed[i]),
{
    let next = synced(known, listed);
    let key = listed[i].0;
    what_is_listed_is_tracked(known, listed);
    assert(key_at(listed, key, i));
    assert(has_key(listed, key));
    let at = choose|at: int| key_at(next, key, at);
    lemma_value_at(next, at);
    assert forall|k: int| 0 <= k < known.len() && (#[trigger] known[k]).0 == key implies
        next.contains(known[k]) by {
        lemma_value_at(known, k);
        what_stays_listed_stays_as_it_was(known, listed, key);
        assert(next[at] == known[k]);
    }
    if (forall|k: int| 0 <= k < known.len() ==> (#[trigger] known[k]).0 != key) && (forall|j: int|
        0 <= j < i ==> (#[trigger] listed[j]).0 != key) {
        assert(!has_key(known, key)) by {
            if has_key(known, key) {
                let k = choose|k: int| key_at(known, key, k);
                assert(known[k].0 != key);
            }
        }
        first_listing_counts(known, listed, i);
        assert(next[at] == listed[i]);
    }
}

/// Nothing is tracked but what is listed, and nothing twice.
pub proof fn nothing_else_is_tracked<T>(
    known: Seq<(Seq<char>, T)>,
    listed: Seq<(Seq<char>, T)>,
    k: int,
)
    requires
        distinct_keys(known),
        0 <= k < synced(known, listed).len(),
    ensures
        exists|i: int|
            0 <= i < listed.len() && (#[trigger] listed[i]).0 == synced(known, listed)[k].0,
        known.contains(synced(known, listed)[k]) || listed.contains(synced(known, listed)[k]),
        forall|l: int|
            0 <= l < synced(known, listed).len() && l != k ==> (#[trigger] synced(
                known,
                listed,
            )[l]).0 != synced(known, listed)[k].0,
{
    let next = synced(known, listed);
    let key = next[k].0;
    what_is_listed_is_tracked(known, listed);
    lemma_value_at(next, k);
    assert(has_key(listed, key));
    let i = choose|i: int| key_at(listed, key, i);
    assert(listed[i].0 == key);
    assert forall|l: int| 0 <= l < next.len() && l != k implies (#[trigger] next[l]).0 != key by {
        if l < k {
            assert(next[l].0 != next[k].0);
        } else {
            assert(next[k].0 != next[l].0);
        }
    }
    lemma_synced_all(
        known,
        listed,
        |e: (Seq<char>, T)| known.contains(e) || listed.contains(e),
    );
    let p = |e: (Seq<char>, T)| known.contains(e) || listed.contains(e);
    assert(p(next[k]));
}

/// What is given up is exactly what was tracked under a key that is not listed.
pub proof fn what_is_given_up_was_not_listed<T>(
    known: Seq<(Seq<char>, T)>,
    listed: Seq<(Seq<char>, T)>,
    value: T,
)
    requires
        distinct_keys(known),
    ensures
        outdated(known, listed).contains(value) <==> exists|k: int|
            0 <= k < known.len() && (#[trigger] known[k]).1 == value && forall|i: int|
                0 <= i < listed.len() ==> (#[trigger] listed[i]).0 != known[k].0,
{
    what_is_not_listed_is_outdated(known, listed, value);
    if outdated(known, listed).contains(value) {
        let key = choose|key: Seq<char>|
            has_key(known, key) && !has_key(listed, key) && #[trigger] value_under(known, key)
                == value;
        let k = choose|k: int| key_at(known, key, k);
        lemma_value_at(known, k);
        assert(known[k].1 == value);
        assert forall|i: int| 0 <= i < listed.len() implies (#[trigger] listed[i]).0
            != known[k].0 by {
            assert(!key_at(listed, key, i));
        }
    }
    if exists|k: int|
        0 <= k < known.len() && (#[trigger] known[k]).1 == value && forall|i: int|
            0 <= i < listed.len() ==> (#[trigger] listed[i]).0 != known[k].0 {
        let k = choose|k: int|
            0 <= k < known.len() && (#[trigger] known[k]).1 == value && forall|i: int|
                0 <= i < listed.len() ==> (#[trigger] listed[i]).0 != known[k].0;
        lemma_value_at(known, k);
        assert(!has_key(listed, known[k].0));
    }
}

/// The failures are the errors among the results, each once and in order.
pub proof fn failures_are_the_errors_in_order(
    results: Seq<DockerResult<()>>,
    result: DockerResult<()>,
)
    ensures
        failures_among(Seq::empty()) == Seq::<DockerError>::empty(),
        failures_among(results.push(result)) == (match result {
            Ok(_) => failures_among(results),
            Err(error) => failures_among(results).push(error),
        }),
        failures_among(results).len() <= results.len(),
    decreases results.len(),
{
    assert(results.push(result).drop_last() =~= results);
    if results.len() > 0 {
        assert(results =~= results.drop_last().push(results.last()));
        failures_are_the_errors_in_order(results.drop_last(), results.last());
    }
}

} // verus!
