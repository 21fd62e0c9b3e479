//! What a whole update does: from the settings and the daemon's answers to what is tracked and
//! published.

use super::containers::{
    container_withdrawals_touch_those_containers_only, outdated_containers_are_withdrawn,
    series_of_container,
};
use super::images::{
    image_listings_touch_images_only, listed_images_are_published, outdated_images_are_withdrawn,
};
use super::names::{
    images_go_by_their_first_real_tag, images_without_a_real_tag_go_by_their_identifier, unreal,
    volume_labels_come_from_the_volume,
};
use super::published::{changes_of, lemma_last_place};
use super::volumes::{
    listed_volumes_are_published, outdated_volumes_are_withdrawn, volume_listings_touch_volumes_only,
};
use super::{
    every_failure_counts, nothing_else_is_tracked, tracking_follows_the_listing,
    what_is_given_up_was_not_listed, what_is_listed_is_tracked,
};
use crate::collector::metrics::Gauge;
use crate::collector::samples::{
    applied, changes_compose, sample, Change, GaugeValue, Samples, Series,
};
use crate::collector::trackers::{
    display_name, nameable, tracked_image, tracked_volume, TrackedContainer, TrackedImage,
    TrackedVolume,
};
use crate::collector::{
    container_withdrawals, containers_in, failures_among, first_listing, image_changes,
    lemma_synced_all, listed_containers, listed_images, listed_volumes, outdated, synced,
    trackable, update_step, volume_changes, DataQuery, DataReply, Inventory, UpdateAction,
    UpdateEvent,
};
use crate::config::Config;
use crate::docker::{Container, DataUsage, DockerError, DockerResult, Image, Volume};
use crate::string_map::{distinct_keys, has_key, key_at, lemma_value_at, value_under, values};
use vstd::prelude::*;

verus! {

/// An update whose query was answered with `reply`: the step that takes the listing from
/// `before` to `between`, and, once the containers are updated, the step that ends the update
/// at `after`.
pub open spec fn runs_through(
    config: Config,
    before: Inventory,
    reply: DataReply,
    between: Inventory,
    listing: UpdateAction,
    results: Vec<DockerResult<()>>,
    after: Inventory,
    end: UpdateAction,
) -> bool {
    &&& before.valid()
    &&& update_step(config, before, UpdateEvent::Data(Ok(reply)), between, listing)
    &&& listing matches UpdateAction::UpdateContainers { changes, volumes, images }
    &&& update_step(
        config,
        between,
        UpdateEvent::ContainersUpdated { results, volumes, images },
        after,
        end,
    )
}

/// Everything on disk is asked for where images or volumes are collected, containers alone
/// where neither is.
pub proof fn settings_choose_the_query(
    config: Config,
    before: Inventory,
    after: Inventory,
    action: UpdateAction,
)
    requires
        update_step(config, before, UpdateEvent::Begin, after, action),
    ensures
        after == before,
        config.collect_image_metrics ==> action == UpdateAction::Query(DataQuery::DataUsage),
        config.collect_volume_metrics ==> action == UpdateAction::Query(DataQuery::DataUsage),
        !config.collect_image_metrics && !config.collect_volume_metrics ==> action
            == UpdateAction::Query(DataQuery::Containers),
{
}

/// An update whose query failed has failed, with that one failure, and changes nothing.
pub proof fn a_failed_query_ends_the_update(
    config: Config,
    before: Inventory,
    error: DockerError,
    after: Inventory,
    action: UpdateAction,
)
    requires
        update_step(config, before, UpdateEvent::Data(Err(error)), after, action),
    ensures
        after == before,
        action matches UpdateAction::Finish { updated, failures, changes } && !updated
            && failures@.len() == 1 && failures@[0] == error && changes@.len() == 0,
{
    let list = action->Finish_changes;
    assert(crate::collector::samples::changes(list@).len() == 0);
}

/// An update whose query was answered succeeds, whatever became of its containers. Each of
/// their failures counts once.
pub proof fn an_answered_query_makes_the_update_succeed(
    config: Config,
    before: Inventory,
    reply: DataReply,
    between: Inventory,
    listing: UpdateAction,
    results: Vec<DockerResult<()>>,
    after: Inventory,
    end: UpdateAction,
)
    requires
        runs_through(config, before, reply, between, listing, results, after, end),
    ensures
        end matches UpdateAction::Finish { updated, failures, changes } && updated && failures@
            == failures_among(results@) && failures@.len() == results@.filter(
            |r: DockerResult<()>| r is Err,
        ).len(),
{
    every_failure_counts(results@);
}

/// The key at `i` is tracked for the first time: it was not tracked before, and none of the keys
/// in front of it is the same.
pub open spec fn comes_new<T>(
    before: Seq<(Seq<char>, T)>,
    keys: Seq<Seq<char>>,
    i: int,
) -> bool {
    &&& 0 <= i < keys.len()
    &&& forall|k: int| 0 <= k < before.len() ==> (#[trigger] before[k]).0 != keys[i]
    &&& forall|j: int| 0 <= j < i ==> #[trigger] keys[j] != keys[i]
}

/// A key that comes new is tracked as it is listed.
proof fn lemma_comes_new<T>(
    before: Seq<(Seq<char>, T)>,
    listed: Seq<(Seq<char>, T)>,
    keys: Seq<Seq<char>>,
    i: int,
)
    requires
        distinct_keys(before),
        keys.len() == listed.len(),
        forall|j: int| 0 <= j < keys.len() ==> (#[trigger] keys[j]) == listed[j].0,
        comes_new(before, keys, i),
    ensures
        synced(before, listed).contains(listed[i]),
{
    assert forall|j: int| 0 <= j < i implies (#[trigger] listed[j]).0 != listed[i].0 by {
        assert(keys[j] != keys[i]);
    }
    assert(keys[i] == listed[i].0);
    tracking_follows_the_listing(before, listed, i);
}

/// After a listing of containers, what was tracked as `before` is tracked as `after`: each listed
/// container, none twice and nothing else; as it was before, or else as its first listing shows it.
#[verifier::opaque]
pub open spec fn tracks_containers(
    before: Seq<(Seq<char>, TrackedContainer)>,
    containers: Seq<Container>,
    after: Seq<(Seq<char>, TrackedContainer)>,
) -> bool {
    let keys = containers.map_values(|x: Container| x.id@);
    &&& forall|k: int|
        0 <= k < after.len() ==> (#[trigger] after[k]).1.id == after[k].0 && exists|i: int|
            0 <= i < containers.len() && (#[trigger] containers[i]).id@ == after[k].0
    &&& forall|k: int, l: int|
        0 <= k < l < after.len() ==> (#[trigger] after[k]).0 != (#[trigger] after[l]).0
    &&& forall|i: int|
        0 <= i < containers.len() ==> exists|k: int|
            0 <= k < after.len() && (#[trigger] after[k]).0 == (#[trigger] containers[i]).id@
    &&& forall|i: int, k: int|
        #![trigger containers[i], before[k]]
        0 <= i < containers.len() && 0 <= k < before.len() && before[k].0 == containers[i].id@
            ==> after.contains(before[k])
    &&& forall|i: int|
        #[trigger] comes_new(before, keys, i) ==> after.contains(
            (
                containers[i].id@,
                TrackedContainer { id: containers[i].id@, name: display_name(containers[i]) },
            ),
        )
}

proof fn lemma_containers_tracked(known: Seq<(Seq<char>, TrackedContainer)>, containers: Seq<Container>)
    requires
        distinct_keys(known),
        forall|k: int| 0 <= k < known.len() ==> (#[trigger] known[k]).1.id == known[k].0,
    ensures
        tracks_containers(known, containers, synced(known, listed_containers(containers))),
{
    reveal(tracks_containers);
    let listed = listed_containers(containers);
    let next = synced(known, listed);
    what_is_listed_is_tracked(known, listed);
    assert forall|k: int| 0 <= k < next.len() implies (#[trigger] next[k]).1.id == next[k].0
        && exists|i: int| 0 <= i < containers.len() && (#[trigger] containers[i]).id@ == next[k].0 by {
        let p = |e: (Seq<char>, TrackedContainer)| e.1.id == e.0;
        lemma_synced_all(known, listed, p);
        assert(p(next[k]));
        nothing_else_is_tracked(known, listed, k);
        let i = choose|i: int| 0 <= i < listed.len() && (#[trigger] listed[i]).0 == next[k].0;
        assert(containers[i].id@ == next[k].0);
    }
    assert forall|i: int| 0 <= i < containers.len() implies exists|k: int|
        0 <= k < next.len() && (#[trigger] next[k]).0 == (#[trigger] containers[i]).id@ by {
        let key = containers[i].id@;
        assert(key_at(listed, key, i));
        assert(has_key(listed, key));
        let k = choose|k: int| key_at(next, key, k);
        assert(next[k].0 == key);
    }
    assert forall|i: int, k: int|
        #![trigger containers[i], known[k]]
        0 <= i < containers.len() && 0 <= k < known.len() && known[k].0 == containers[i].id@ implies
        next.contains(known[k]) by {
        tracking_follows_the_listing(known, listed, i);
        assert(listed[i].0 == containers[i].id@);
    }
    let keys = containers.map_values(|x: Container| x.id@);
    assert forall|i: int| #[trigger] comes_new(known, keys, i) implies next.contains(
        (
            containers[i].id@,
            TrackedContainer { id: containers[i].id@, name: display_name(containers[i]) },
        ),
    ) by {
        lemma_comes_new(known, listed, keys, i);
        assert(listed[i] == (
            containers[i].id@,
            TrackedContainer { id: containers[i].id@, name: display_name(containers[i]) },
        ));
    }
}

/// The containers that are tracked after an update are those that its query listed: each under
/// its identifier, none twice, as it was tracked before, or else under the name that its first
/// listing shows.
pub proof fn exactly_the_listed_containers_are_tracked(
    config: Config,
    before: Inventory,
    usage: DataUsage,
    between: Inventory,
    listing: UpdateAction,
    results: Vec<DockerResult<()>>,
    after: Inventory,
    end: UpdateAction,
    reply: DataReply,
)
    requires
        runs_through(config, before, reply, between, listing, results, after, end),
        reply == DataReply::DataUsage(usage) || reply == DataReply::Containers(usage.containers),
    ensures
        after.containers == between.containers,
        tracks_containers(before.containers, usage.containers@, after.containers),
{
    assert(containers_in(reply) == usage.containers@);
    assert(after.containers == synced(before.containers, listed_containers(usage.containers@)));
    lemma_containers_tracked(before.containers, usage.containers@);
}

/// A container that is not listed any more has no samples left when the containers that are
/// listed are updated. Samples that no such container has stay until then.
pub proof fn containers_that_are_gone_are_withdrawn(
    config: Config,
    before: Inventory,
    reply: DataReply,
    between: Inventory,
    listing: UpdateAction,
    samples: Samples,
    series: Series,
)
    requires
        before.valid(),
        update_step(config, before, UpdateEvent::Data(Ok(reply)), between, listing),
    ensures
        series.0.of_container() && (exists|k: int|
            0 <= k < before.containers.len() && series.1 == seq![
                (#[trigger] before.containers[k]).1.name,
            ] && forall|i: int|
                0 <= i < containers_in(reply).len() ==> (#[trigger] containers_in(reply)[i]).id@
                    != before.containers[k].0) ==> sample(
            applied(samples, changes_of(listing)),
            series,
        ) is None,
        !series.0.of_container() || (forall|k: int|
            0 <= k < before.containers.len() && series.1 == seq![
                (#[trigger] before.containers[k]).1.name,
            ] ==> exists|i: int|
                0 <= i < containers_in(reply).len() && (#[trigger] containers_in(reply)[i]).id@
                    == before.containers[k].0) ==> sample(
            applied(samples, changes_of(listing)),
            series,
        ) == sample(samples, series),
{
    let containers = containers_in(reply);
    let known = before.containers;
    let listed = listed_containers(containers);
    let old = outdated(known, listed);
    assert(changes_of(listing) == container_withdrawals(old));
    if series.0.of_container() && exists|k: int|
        0 <= k < known.len() && series.1 == seq![(#[trigger] known[k]).1.name] && forall|i: int|
            0 <= i < containers.len() ==> (#[trigger] containers[i]).id@ != known[k].0 {
        let k = choose|k: int|
            0 <= k < known.len() && series.1 == seq![(#[trigger] known[k]).1.name] && forall|i: int|
                0 <= i < containers.len() ==> (#[trigger] containers[i]).id@ != known[k].0;
        let t = known[k].1;
        assert forall|i: int| 0 <= i < listed.len() implies (#[trigger] listed[i]).0
            != known[k].0 by {
            assert(containers[i].id@ != known[k].0);
        }
        what_is_given_up_was_not_listed(known, listed, t);
        outdated_containers_are_withdrawn(samples, old, t, series);
    }
    if !series.0.of_container() || (forall|k: int|
        0 <= k < known.len() && series.1 == seq![(#[trigger] known[k]).1.name] ==> exists|i: int|
            0 <= i < containers.len() && (#[trigger] containers[i]).id@ == known[k].0) {
        assert forall|t: TrackedContainer| old.contains(t) implies !#[trigger] series_of_container(
            t,
            series,
        ) by {
            if series_of_container(t, series) {
                what_is_given_up_was_not_listed(known, listed, t);
                let k = choose|k: int|
                    0 <= k < known.len() && (#[trigger] known[k]).1 == t && forall|i: int|
                        0 <= i < listed.len() ==> (#[trigger] listed[i]).0 != known[k].0;
                assert(series.1 == seq![known[k].1.name]);
                let i = choose|i: int|
                    0 <= i < containers.len() && (#[trigger] containers[i]).id@ == known[k].0;
                assert(listed[i].0 == known[k].0);
            }
        }
        container_withdrawals_touch_those_containers_only(samples, old, series);
    }
}

/// After a listing of volumes, what was tracked as `before` is tracked as `after`: each listed
/// volume, none twice and nothing else; as it was before, or else as its first listing shows it.
#[verifier::opaque]
pub open spec fn tracks_volumes(
    before: Seq<(Seq<char>, TrackedVolume)>,
    volumes: Seq<Volume>,
    after: Seq<(Seq<char>, TrackedVolume)>,
) -> bool {
    let keys = volumes.map_values(|x: Volume| x.name@);
    &&& forall|k: int|
        0 <= k < after.len() ==> (#[trigger] after[k]).1.name == after[k].0 && exists|i: int|
            0 <= i < volumes.len() && (#[trigger] volumes[i]).name@ == after[k].0
    &&& forall|k: int, l: int|
        0 <= k < l < after.len() ==> (#[trigger] after[k]).0 != (#[trigger] after[l]).0
    &&& forall|i: int|
        0 <= i < volumes.len() ==> exists|k: int|
            0 <= k < after.len() && (#[trigger] after[k]).0 == (#[trigger] volumes[i]).name@
    &&& forall|i: int, k: int|
        #![trigger volumes[i], before[k]]
        0 <= i < volumes.len() && 0 <= k < before.len() && before[k].0 == volumes[i].name@
            ==> after.contains(before[k])
    &&& forall|i: int|
        #[trigger] comes_new(before, keys, i) ==> after.contains(
            (volumes[i].name@, tracked_volume(volumes[i])),
        )
}

proof fn lemma_volumes_tracked(known: Seq<(Seq<char>, TrackedVolume)>, volumes: Seq<Volume>)
    requires
        distinct_keys(known),
        forall|k: int| 0 <= k < known.len() ==> (#[trigger] known[k]).1.name == known[k].0,
    ensures
        tracks_volumes(known, volumes, synced(known, listed_volumes(volumes))),
{
    reveal(tracks_volumes);
    let listed = listed_volumes(volumes);
    let next = synced(known, listed);
    what_is_listed_is_tracked(known, listed);
    assert forall|k: int| 0 <= k < next.len() implies (#[trigger] next[k]).1.name == next[k].0
        && exists|i: int| 0 <= i < volumes.len() && (#[trigger] volumes[i]).name@ == next[k].0 by {
        let p = |e: (Seq<char>, TrackedVolume)| e.1.name == e.0;
        lemma_synced_all(known, listed, p);
        assert(p(next[k]));
        nothing_else_is_tracked(known, listed, k);
        let i = choose|i: int| 0 <= i < listed.len() && (#[trigger] listed[i]).0 == next[k].0;
        assert(volumes[i].name@ == next[k].0);
    }
    assert forall|i: int| 0 <= i < volumes.len() implies exists|k: int|
        0 <= k < next.len() && (#[trigger] next[k]).0 == (#[trigger] volumes[i]).name@ by {
        let key = volumes[i].name@;
        assert(key_at(listed, key, i));
        assert(has_key(listed, key));
        let k = choose|k: int| key_at(next, key, k);
        assert(next[k].0 == key);
    }
    assert forall|i: int, k: int|
        #![trigger volumes[i], known[k]]
        0 <= i < volumes.len() && 0 <= k < known.len() && known[k].0 == volumes[i].name@ implies
        next.contains(known[k]) by {
        tracking_follows_the_listing(known, listed, i);
        assert(listed[i].0 == volumes[i].name@);
    }
    let keys = volumes.map_values(|x: Volume| x.name@);
    assert forall|i: int| #[trigger] comes_new(known, keys, i) implies next.contains(
        (volumes[i].name@, tracked_volume(volumes[i])),
    ) by {
        lemma_comes_new(known, listed, keys, i);
        assert(listed[i] == (volumes[i].name@, tracked_volume(volumes[i])));
    }
}

/// Where volumes are collected, the tracked volumes are those that the query listed, whether
/// images are collected or not. Where they are not, the tracked volumes stay.
pub proof fn exactly_the_listed_volumes_are_tracked(
    config: Config,
    before: Inventory,
    usage: DataUsage,
    between: Inventory,
    listing: UpdateAction,
    results: Vec<DockerResult<()>>,
    after: Inventory,
    end: UpdateAction,
)
    requires
        runs_through(
            config,
            before,
            DataReply::DataUsage(usage),
            between,
            listing,
            results,
            after,
            end,
        ),
    ensures
        config.collect_volume_metrics ==> tracks_volumes(
            before.volumes,
            usage.volumes@,
            after.volumes,
        ),
        !config.collect_volume_metrics ==> after.volumes == before.volumes,
{
    lemma_volumes_tracked(before.volumes, usage.volumes@);
}

/// After a listing of images, what was tracked as `before` is tracked as `after`: each listed
/// image, none twice and nothing else; as it was before, or else as its first listing shows it.
#[verifier::opaque]
pub open spec fn tracks_images(
    before: Seq<(Seq<char>, TrackedImage)>,
    images: Seq<Image>,
    after: Seq<(Seq<char>, TrackedImage)>,
) -> bool {
    let keys = images.map_values(|x: Image| x.id@);
    &&& forall|k: int|
        0 <= k < after.len() ==> (#[trigger] after[k]).1.id == after[k].0 && exists|i: int|
            0 <= i < images.len() && (#[trigger] images[i]).id@ == after[k].0
    &&& forall|k: int, l: int|
        0 <= k < l < after.len() ==> (#[trigger] after[k]).0 != (#[trigger] after[l]).0
    &&& forall|i: int|
        0 <= i < images.len() ==> exists|k: int|
            0 <= k < after.len() && (#[trigger] after[k]).0 == (#[trigger] images[i]).id@
    &&& forall|i: int, k: int|
        #![trigger images[i], before[k]]
        0 <= i < images.len() && 0 <= k < before.len() && before[k].0 == images[i].id@
            ==> after.contains(before[k])
    &&& forall|i: int|
        #[trigger] comes_new(before, keys, i) ==> after.contains(
            (images[i].id@, tracked_image(images[i])),
        )
}

proof fn lemma_images_tracked(known: Seq<(Seq<char>, TrackedImage)>, images: Seq<Image>)
    requires
        distinct_keys(known),
        forall|k: int| 0 <= k < known.len() ==> (#[trigger] known[k]).1.id == known[k].0,
    ensures
        tracks_images(known, images, synced(known, listed_images(images))),
{
    reveal(tracks_images);
    let listed = listed_images(images);
    let next = synced(known, listed);
    what_is_listed_is_tracked(known, listed);
    assert forall|k: int| 0 <= k < next.len() implies (#[trigger] next[k]).1.id == next[k].0
        && exists|i: int| 0 <= i < images.len() && (#[trigger] images[i]).id@ == next[k].0 by {
        let p = |e: (Seq<char>, TrackedImage)| e.1.id == e.0;
        lemma_synced_all(known, listed, p);
        assert(p(next[k]));
        nothing_else_is_tracked(known, listed, k);
        let i = choose|i: int| 0 <= i < listed.len() && (#[trigger] listed[i]).0 == next[k].0;
        assert(images[i].id@ == next[k].0);
    }
    assert forall|i: int| 0 <= i < images.len() implies exists|k: int|
        0 <= k < next.len() && (#[trigger] next[k]).0 == (#[trigger] images[i]).id@ by {
        let key = images[i].id@;
        assert(key_at(listed, key, i));
        assert(has_key(listed, key));
        let k = choose|k: int| key_at(next, key, k);
        assert(next[k].0 == key);
    }
    assert forall|i: int, k: int|
        #![trigger images[i], known[k]]
        0 <= i < images.len() && 0 <= k < known.len() && known[k].0 == images[i].id@ implies
        next.contains(known[k]) by {
        tracking_follows_the_listing(known, listed, i);
        assert(listed[i].0 == images[i].id@);
    }
    let keys = images.map_values(|x: Image| x.id@);
    assert forall|i: int| #[trigger] comes_new(known, keys, i) implies next.contains(
        (images[i].id@, tracked_image(images[i])),
    ) by {
        lemma_comes_new(known, listed, keys, i);
        assert(listed[i] == (images[i].id@, tracked_image(images[i])));
    }
}

/// Where images are collected, the tracked images are those that the query listed, whether
/// volumes are collected or not. Where they are not, the tracked images stay.
pub proof fn exactly_the_listed_images_are_tracked(
    config: Config,
    before: Inventory,
    usage: DataUsage,
    between: Inventory,
    listing: UpdateAction,
    results: Vec<DockerResult<()>>,
    after: Inventory,
    end: UpdateAction,
)
    requires
        runs_through(
            config,
            before,
            DataReply::DataUsage(usage),
            between,
            listing,
            results,
            after,
            end,
        ),
    ensures
        config.collect_image_metrics ==> tracks_images(before.images, usage.images@, after.images),
        !config.collect_image_metrics ==> after.images == before.images,
{
    lemma_images_tracked(before.images, usage.images@);
}

/// The step that ends an update.
pub open spec fn ends(
    config: Config,
    before: Inventory,
    results: Vec<DockerResult<()>>,
    volumes: Vec<Volume>,
    images: Vec<Image>,
    after: Inventory,
    end: UpdateAction,
) -> bool {
    before.valid() && update_step(
        config,
        before,
        UpdateEvent::ContainersUpdated { results, volumes, images },
        after,
        end,
    )
}

/// The changes that the end of an update makes: those of volumes, then those of images.
proof fn lemma_end(
    config: Config,
    before: Inventory,
    results: Vec<DockerResult<()>>,
    volumes: Vec<Volume>,
    images: Vec<Image>,
    after: Inventory,
    end: UpdateAction,
    samples: Samples,
    series: Series,
)
    requires
        ends(config, before, results, volumes, images, after, end),
    ensures
        series.0.of_volume() && config.collect_volume_metrics ==> sample(
            applied(samples, changes_of(end)),
            series,
        ) == sample(applied(samples, volume_changes(before.volumes, volumes@)), series),
        series.0.of_volume() && !config.collect_volume_metrics ==> sample(
            applied(samples, changes_of(end)),
            series,
        ) == sample(samples, series),
        series.0.of_container() ==> sample(applied(samples, changes_of(end)), series) == sample(
            samples,
            series,
        ),
        !series.0.of_container() && !series.0.of_volume() && config.collect_image_metrics ==>
            exists|others: Samples|
            sample(applied(samples, changes_of(end)), series) == sample(
                #[trigger] applied(others, image_changes(before.images, images@)),
                series,
            ) && sample(others, series) == sample(samples, series),
        !series.0.of_container() && !series.0.of_volume() && !config.collect_image_metrics
            ==> sample(applied(samples, changes_of(end)), series) == sample(samples, series),
{
    let first = if config.collect_volume_metrics {
        volume_changes(before.volumes, volumes@)
    } else {
        Seq::empty()
    };
    let second = if config.collect_image_metrics {
        image_changes(before.images, images@)
    } else {
        Seq::empty()
    };
    assert(changes_of(end) == first + second);
    changes_compose(samples, first, second);
    let others = applied(samples, first);
    if !series.0.of_volume() && config.collect_volume_metrics {
        volume_listings_touch_volumes_only(samples, before.volumes, volumes@, series);
    }
    if (series.0.of_volume() || series.0.of_container()) && config.collect_image_metrics {
        image_listings_touch_images_only(others, before.images, images@, series);
    }
    assert(sample(applied(samples, changes_of(end)), series) == sample(
        applied(others, second),
        series,
    ));
}

proof fn lemma_volumes_published(
    config: Config,
    before: Inventory,
    results: Vec<DockerResult<()>>,
    volumes: Vec<Volume>,
    images: Vec<Image>,
    after: Inventory,
    end: UpdateAction,
    samples: Samples,
    i: int,
    k: int,
)
    requires
        ends(config, before, results, volumes, images, after, end),
        config.collect_volume_metrics,
        0 <= i < volumes@.len(),
        forall|j: int|
            i < j < volumes@.len() ==> (#[trigger] volumes@[j]).name@
                != volumes@[i].name@,
        0 <= k < after.volumes.len(),
        after.volumes[k].0 == volumes@[i].name@,
    ensures
        ({
            let t = after.volumes[k].1;
            let labels = seq![t.name, t.anonymous, t.driver, t.compose_project, t.service];
            let published = applied(samples, changes_of(end));
            &&& sample(published, (Gauge::VolumeSize, labels)) == Some(
                GaugeValue::Whole(volumes@[i].usage_data.size),
            )
            &&& sample(published, (Gauge::VolumeContainerCount, labels)) == Some(
                GaugeValue::Whole(volumes@[i].usage_data.ref_count as u64),
            )
        }),
{
    let t = after.volumes[k].1;
    let size: Series = (Gauge::VolumeSize, t.labels());
    let count: Series = (Gauge::VolumeContainerCount, t.labels());
    lemma_end(config, before, results, volumes, images, after, end, samples, size);
    lemma_end(config, before, results, volumes, images, after, end, samples, count);
    what_is_listed_is_tracked(before.volumes, listed_volumes(volumes@));
    lemma_value_at(after.volumes, k);
    listed_volumes_are_published(samples, before.volumes, volumes@, i);
}

proof fn lemma_images_published(
    config: Config,
    before: Inventory,
    results: Vec<DockerResult<()>>,
    volumes: Vec<Volume>,
    images: Vec<Image>,
    after: Inventory,
    end: UpdateAction,
    samples: Samples,
    i: int,
    k: int,
)
    requires
        ends(config, before, results, volumes, images, after, end),
        config.collect_image_metrics,
        0 <= i < images@.len(),
        0 <= k < after.images.len(),
        after.images[k].0 == images@[i].id@,
    ensures
        ({
            let labels = seq![after.images[k].1.tag];
            let published = applied(samples, changes_of(end));
            &&& sample(published, (Gauge::ImageSize, labels)) is Some
            &&& sample(published, (Gauge::ImageContainerCount, labels)) is Some
            &&& (forall|j: int, l: int|
                #![trigger images@[j], after.images[l]]
                i < j < images@.len() && 0 <= l < after.images.len() && after.images[l].0
                    == images@[j].id@ ==> after.images[l].1.tag != after.images[k].1.tag)
                ==> sample(published, (Gauge::ImageSize, labels)) == Some(
                GaugeValue::Whole(images@[i].size),
            ) && sample(published, (Gauge::ImageContainerCount, labels)) == Some(
                GaugeValue::Whole(images@[i].containers as u64),
            )
        }),
{
    let listing = images@;
    let next = after.images;
    let t = next[k].1;
    let size: Series = (Gauge::ImageSize, t.labels());
    let count: Series = (Gauge::ImageContainerCount, t.labels());
    lemma_end(config, before, results, volumes, images, after, end, samples, size);
    lemma_end(config, before, results, volumes, images, after, end, samples, count);
    let published = applied(samples, changes_of(end));
    let list = image_changes(before.images, listing);
    let a = choose|others: Samples|
        sample(published, size) == sample(#[trigger] applied(others, list), size) && sample(
            others,
            size,
        ) == sample(samples, size);
    let b = choose|others: Samples|
        sample(published, count) == sample(#[trigger] applied(others, list), count) && sample(
            others,
            count,
        ) == sample(samples, count);
    what_is_listed_is_tracked(before.images, listed_images(listing));
    lemma_value_at(next, k);
    assert(value_under(next, listing[i].id@) == t);
    let p = |j: int| value_under(next, listing[j].id@).tag == t.tag;
    assert(p(i));
    let last = lemma_last_place(listing.len() as int, p, i);
    assert forall|j: int| last < j < listing.len() implies value_under(
        next,
        (#[trigger] listing[j]).id@,
    ).tag != value_under(next, listing[last].id@).tag by {
        assert(!p(j));
    }
    listed_images_are_published(a, before.images, listing, last);
    listed_images_are_published(b, before.images, listing, last);
    assert(value_under(next, listing[last].id@).labels() =~= t.labels());
    if forall|j: int, l: int|
        #![trigger listing[j], next[l]]
        i < j < listing.len() && 0 <= l < next.len() && next[l].0 == listing[j].id@ ==> next[l].1.tag
            != t.tag {
        assert forall|j: int| i < j < listing.len() implies value_under(
            next,
            (#[trigger] listing[j]).id@,
        ).tag != value_under(next, listing[i].id@).tag by {
            let id = listing[j].id@;
            assert(key_at(listed_images(listing), id, j));
            assert(has_key(listed_images(listing), id));
            let l = choose|l: int| key_at(next, id, l);
            lemma_value_at(next, l);
            assert(next[l].1.tag != t.tag);
        }
        listed_images_are_published(a, before.images, listing, i);
        listed_images_are_published(b, before.images, listing, i);
    }
}

proof fn lemma_volumes_withdrawn(
    config: Config,
    before: Inventory,
    results: Vec<DockerResult<()>>,
    volumes: Vec<Volume>,
    images: Vec<Image>,
    after: Inventory,
    end: UpdateAction,
    samples: Samples,
    k: int,
    gauge: Gauge,
)
    requires
        ends(config, before, results, volumes, images, after, end),
        config.collect_volume_metrics,
        0 <= k < before.volumes.len(),
        forall|i: int|
            0 <= i < volumes@.len() ==> (#[trigger] volumes@[i]).name@
                != before.volumes[k].0,
        gauge == Gauge::VolumeSize || gauge == Gauge::VolumeContainerCount,
    ensures
        ({
            let t = before.volumes[k].1;
            let labels = seq![t.name, t.anonymous, t.driver, t.compose_project, t.service];
            sample(applied(samples, changes_of(end)), (gauge, labels)) is None
        }),
{
    let t = before.volumes[k].1;
    let series: Series = (gauge, t.labels());
    let listed = listed_volumes(volumes@);
    lemma_end(config, before, results, volumes, images, after, end, samples, series);
    assert forall|i: int| 0 <= i < listed.len() implies (#[trigger] listed[i]).0
        != before.volumes[k].0 by {
        assert(volumes@[i].name@ != before.volumes[k].0);
    }
    what_is_given_up_was_not_listed(before.volumes, listed, t);
    outdated_volumes_are_withdrawn(samples, before.volumes, volumes@, t, series);
}

proof fn lemma_images_withdrawn(
    config: Config,
    before: Inventory,
    results: Vec<DockerResult<()>>,
    volumes: Vec<Volume>,
    images: Vec<Image>,
    after: Inventory,
    end: UpdateAction,
    samples: Samples,
    k: int,
    gauge: Gauge,
)
    requires
        ends(config, before, results, volumes, images, after, end),
        config.collect_image_metrics,
        0 <= k < before.images.len(),
        forall|i: int|
            0 <= i < images@.len() ==> (#[trigger] images@[i]).id@
                != before.images[k].0,
        forall|l: int|
            0 <= l < after.images.len() ==> (#[trigger] after.images[l]).1.tag
                != before.images[k].1.tag,
        gauge == Gauge::ImageSize || gauge == Gauge::ImageContainerCount,
    ensures
        sample(applied(samples, changes_of(end)), (gauge, seq![before.images[k].1.tag])) is None,
{
    let t = before.images[k].1;
    let series: Series = (gauge, t.labels());
    let listing = images@;
    let listed = listed_images(listing);
    let list = image_changes(before.images, listing);
    let published = applied(samples, changes_of(end));
    lemma_end(config, before, results, volumes, images, after, end, samples, series);
    let others = choose|others: Samples|
        sample(published, series) == sample(#[trigger] applied(others, list), series) && sample(
            others,
            series,
        ) == sample(samples, series);
    assert forall|i: int| 0 <= i < listed.len() implies (#[trigger] listed[i]).0
        != before.images[k].0 by {
        assert(listing[i].id@ != before.images[k].0);
    }
    what_is_given_up_was_not_listed(before.images, listed, t);
    assert forall|u: TrackedImage| values(synced(before.images, listed)).contains(u) implies (
    #[trigger] u.labels()) != t.labels() by {
        let l = choose|l: int| 0 <= l < values(after.images).len() && values(after.images)[l] == u;
        assert(after.images[l].1.tag != t.tag);
        if u.labels() == t.labels() {
            assert(u.labels()[0] == t.labels()[0]);
        }
    }
    outdated_images_are_withdrawn(others, before.images, listing, t, series);
}

proof fn lemma_uncollected_stay(
    config: Config,
    before: Inventory,
    results: Vec<DockerResult<()>>,
    volumes: Vec<Volume>,
    images: Vec<Image>,
    after: Inventory,
    end: UpdateAction,
    samples: Samples,
    series: Series,
)
    requires
        ends(config, before, results, volumes, images, after, end),
        (series.0 == Gauge::VolumeSize || series.0 == Gauge::VolumeContainerCount)
            ==> !config.collect_volume_metrics,
        (series.0 == Gauge::ImageSize || series.0 == Gauge::ImageContainerCount)
            ==> !config.collect_image_metrics,
    ensures
        sample(applied(samples, changes_of(end)), series) == sample(samples, series),
{
    lemma_end(config, before, results, volumes, images, after, end, samples, series);
}

/// An update that runs through ends with what the query listed.
proof fn lemma_ends(
    config: Config,
    before: Inventory,
    usage: DataUsage,
    between: Inventory,
    listing: UpdateAction,
    results: Vec<DockerResult<()>>,
    after: Inventory,
    end: UpdateAction,
)
    requires
        runs_through(
            config,
            before,
            DataReply::DataUsage(usage),
            between,
            listing,
            results,
            after,
            end,
        ),
    ensures
        listing is UpdateContainers,
        listing->UpdateContainers_volumes@ == usage.volumes@,
        listing->UpdateContainers_images@ == usage.images@,
        between.volumes == before.volumes,
        between.images == before.images,
        ends(
            config,
            between,
            results,
            listing->UpdateContainers_volumes,
            listing->UpdateContainers_images,
            after,
            end,
        ),
{
    let listed = listed_containers(usage.containers@);
    what_is_listed_is_tracked(before.containers, listed);
    lemma_synced_all(
        before.containers,
        listed,
        |e: (Seq<char>, TrackedContainer)| e.1.id == e.0,
    );
    assert(between.valid());
}

/// Where volumes are collected, each listed volume has its size and its number of containers
/// published after an update, under the labels that it is tracked with, whether images are
/// collected or not. Where one name is listed more than once, its last listing counts.
pub proof fn listed_volumes_are_published_after_an_update(
    config: Config,
    before: Inventory,
    usage: DataUsage,
    between: Inventory,
    listing: UpdateAction,
    results: Vec<DockerResult<()>>,
    after: Inventory,
    end: UpdateAction,
    samples: Samples,
    i: int,
    k: int,
)
    requires
        runs_through(
            config,
            before,
            DataReply::DataUsage(usage),
            between,
            listing,
            results,
            after,
            end,
        ),
        config.collect_volume_metrics,
        0 <= i < usage.volumes@.len(),
        forall|j: int|
            i < j < usage.volumes@.len() ==> (#[trigger] usage.volumes@[j]).name@
                != usage.volumes@[i].name@,
        0 <= k < after.volumes.len(),
        after.volumes[k].0 == usage.volumes@[i].name@,
    ensures
        ({
            let t = after.volumes[k].1;
            let labels = seq![t.name, t.anonymous, t.driver, t.compose_project, t.service];
            let published = applied(samples, changes_of(end));
            &&& sample(published, (Gauge::VolumeSize, labels)) == Some(
                GaugeValue::Whole(usage.volumes@[i].usage_data.size),
            )
            &&& sample(published, (Gauge::VolumeContainerCount, labels)) == Some(
                GaugeValue::Whole(usage.volumes@[i].usage_data.ref_count as u64),
            )
        }),
{
    lemma_ends(config, before, usage, between, listing, results, after, end);
    let volumes = listing->UpdateContainers_volumes;
    let images = listing->UpdateContainers_images;
    lemma_volumes_published(
        config,
        between,
        results,
        volumes,
        images,
        after,
        end,
        samples,
        i,
        k,
    );
}

/// A volume that comes to be tracked is published under its name, whether it is anonymous, its
/// driver, and the compose project and service that its labels name.
pub proof fn new_volumes_are_published_under_their_labels(
    config: Config,
    before: Inventory,
    usage: DataUsage,
    between: Inventory,
    listing: UpdateAction,
    results: Vec<DockerResult<()>>,
    after: Inventory,
    end: UpdateAction,
    samples: Samples,
    i: int,
    labels: Seq<Seq<char>>,
)
    requires
        runs_through(
            config,
            before,
            DataReply::DataUsage(usage),
            between,
            listing,
            results,
            after,
            end,
        ),
        config.collect_volume_metrics,
        0 <= i < usage.volumes@.len(),
        forall|j: int|
            0 <= j < usage.volumes@.len() && j != i ==> (#[trigger] usage.volumes@[j]).name@
                != usage.volumes@[i].name@,
        forall|k: int|
            0 <= k < before.volumes.len() ==> (#[trigger] before.volumes[k]).0
                != usage.volumes@[i].name@,
        distinct_keys(usage.volumes@[i].labels@),
        labels.len() == 5,
        labels[0] == usage.volumes@[i].name@,
        labels[1] == (if usage.volumes@[i].labels@.map_values(
            |e: (Seq<char>, String)| e.0,
        ).contains("com.docker.volume.anonymous"@) {
            "true"@
        } else {
            "false"@
        }),
        labels[2] == usage.volumes@[i].driver@,
        labelled(usage.volumes@[i].labels@, "com.docker.compose.project"@, labels[3]),
        labelled(usage.volumes@[i].labels@, "com.docker.compose.service"@, labels[4]),
    ensures
        ({
            let published = applied(samples, changes_of(end));
            &&& sample(published, (Gauge::VolumeSize, labels)) == Some(
                GaugeValue::Whole(usage.volumes@[i].usage_data.size),
            )
            &&& sample(published, (Gauge::VolumeContainerCount, labels)) == Some(
                GaugeValue::Whole(usage.volumes@[i].usage_data.ref_count as u64),
            )
        }),
{
    reveal(tracks_volumes);
    let v = usage.volumes@[i];
    let t = tracked_volume(v);
    exactly_the_listed_volumes_are_tracked(
        config,
        before,
        usage,
        between,
        listing,
        results,
        after,
        end,
    );
    let keys = usage.volumes@.map_values(|x: Volume| x.name@);
    assert forall|j: int| 0 <= j < i implies #[trigger] keys[j] != keys[i] by {
        assert(usage.volumes@[j].name@ != usage.volumes@[i].name@);
    }
    assert(comes_new(before.volumes, keys, i));
    assert(after.volumes.contains((v.name@, t)));
    let k = choose|k: int| 0 <= k < after.volumes.len() && after.volumes[k] == (v.name@, t);
    listed_volumes_are_published_after_an_update(
        config,
        before,
        usage,
        between,
        listing,
        results,
        after,
        end,
        samples,
        i,
        k,
    );
    lemma_volume_labels(v, labels);
}

/// `text` is what stands under `key`, or nothing where the key is not there.
pub open spec fn labelled(
    entries: Seq<(Seq<char>, String)>,
    key: Seq<char>,
    text: Seq<char>,
) -> bool {
    ||| exists|i: int| 0 <= i < entries.len() && (#[trigger] entries[i]).0 == key && entries[i].1@ == text
    ||| (forall|i: int| 0 <= i < entries.len() ==> (#[trigger] entries[i]).0 != key) && text.len()
        == 0
}

proof fn lemma_volume_labels(v: Volume, labels: Seq<Seq<char>>)
    requires
        distinct_keys(v.labels@),
        labels.len() == 5,
        labels[0] == v.name@,
        labels[1] == (if v.labels@.map_values(|e: (Seq<char>, String)| e.0).contains(
            "com.docker.volume.anonymous"@,
        ) {
            "true"@
        } else {
            "false"@
        }),
        labels[2] == v.driver@,
        labelled(v.labels@, "com.docker.compose.project"@, labels[3]),
        labelled(v.labels@, "com.docker.compose.service"@, labels[4]),
    ensures
        tracked_volume(v).labels() == labels,
{
    let entries = v.labels@;
    let names = entries.map_values(|e: (Seq<char>, String)| e.0);
    let anonymous = "com.docker.volume.anonymous"@;
    let project = "com.docker.compose.project"@;
    let service = "com.docker.compose.service"@;
    volume_labels_come_from_the_volume(v, 0);
    if names.contains(anonymous) {
        let i = choose|i: int| 0 <= i < names.len() && names[i] == anonymous;
        assert(entries[i].0 == anonymous);
        volume_labels_come_from_the_volume(v, i);
    } else {
        assert forall|j: int| 0 <= j < entries.len() implies (#[trigger] entries[j]).0
            != anonymous by {
            assert(names[j] == entries[j].0);
        }
    }
    if exists|i: int|
        0 <= i < entries.len() && (#[trigger] entries[i]).0 == project && entries[i].1@ == labels[3] {
        let i = choose|i: int|
            0 <= i < entries.len() && (#[trigger] entries[i]).0 == project && entries[i].1@
                == labels[3];
        volume_labels_come_from_the_volume(v, i);
    } else {
        assert(labels[3] =~= Seq::empty());
    }
    if exists|i: int|
        0 <= i < entries.len() && (#[trigger] entries[i]).0 == service && entries[i].1@ == labels[4] {
        let i = choose|i: int|
            0 <= i < entries.len() && (#[trigger] entries[i]).0 == service && entries[i].1@
                == labels[4];
        volume_labels_come_from_the_volume(v, i);
    } else {
        assert(labels[4] =~= Seq::empty());
    }
    let made = tracked_volume(v).labels();
    assert(made[0] == labels[0]);
    assert(made[1] == labels[1]);
    assert(made[2] == labels[2]);
    assert(made[3] == labels[3]);
    assert(made[4] == labels[4]);
    assert(made =~= labels);
}

/// Where images are collected, each listed image has its size and its number of containers
/// published after an update, under the tag that it is tracked with, whether volumes are
/// collected or not. Where images share a tag, the last of them counts.
pub proof fn listed_images_are_published_after_an_update(
    config: Config,
    before: Inventory,
    usage: DataUsage,
    between: Inventory,
    listing: UpdateAction,
    results: Vec<DockerResult<()>>,
    after: Inventory,
    end: UpdateAction,
    samples: Samples,
    i: int,
    k: int,
)
    requires
        runs_through(
            config,
            before,
            DataReply::DataUsage(usage),
            between,
            listing,
            results,
            after,
            end,
        ),
        config.collect_image_metrics,
        0 <= i < usage.images@.len(),
        0 <= k < after.images.len(),
        after.images[k].0 == usage.images@[i].id@,
    ensures
        ({
            let labels = seq![after.images[k].1.tag];
            let published = applied(samples, changes_of(end));
            &&& sample(published, (Gauge::ImageSize, labels)) is Some
            &&& sample(published, (Gauge::ImageContainerCount, labels)) is Some
            &&& (forall|j: int, l: int|
                #![trigger usage.images@[j], after.images[l]]
                i < j < usage.images@.len() && 0 <= l < after.images.len() && after.images[l].0
                    == usage.images@[j].id@ ==> after.images[l].1.tag != after.images[k].1.tag)
                ==> sample(published, (Gauge::ImageSize, labels)) == Some(
                GaugeValue::Whole(usage.images@[i].size),
            ) && sample(published, (Gauge::ImageContainerCount, labels)) == Some(
                GaugeValue::Whole(usage.images@[i].containers as u64),
            )
        }),
{
    lemma_ends(config, before, usage, between, listing, results, after, end);
    let volumes = listing->UpdateContainers_volumes;
    let images = listing->UpdateContainers_images;
    lemma_images_published(
        config,
        between,
        results,
        volumes,
        images,
        after,
        end,
        samples,
        i,
        k,
    );
}

/// An image that comes to be tracked is published under the first of its tags that does not
/// hold `<none>`, or under its identifier where there is no such tag.
pub proof fn new_images_are_published_under_their_first_real_tag(
    config: Config,
    before: Inventory,
    usage: DataUsage,
    between: Inventory,
    listing: UpdateAction,
    results: Vec<DockerResult<()>>,
    after: Inventory,
    end: UpdateAction,
    samples: Samples,
    i: int,
    n: int,
    tag: Seq<char>,
)
    requires
        runs_through(
            config,
            before,
            DataReply::DataUsage(usage),
            between,
            listing,
            results,
            after,
            end,
        ),
        config.collect_image_metrics,
        0 <= i < usage.images@.len(),
        forall|j: int|
            0 <= j < i ==> (#[trigger] usage.images@[j]).id@ != usage.images@[i].id@,
        forall|k: int|
            0 <= k < before.images.len() ==> (#[trigger] before.images[k]).0
                != usage.images@[i].id@,
        0 <= n <= usage.images@[i].repo_tags@.len(),
        forall|j: int| 0 <= j < n ==> unreal((#[trigger] usage.images@[i].repo_tags@[j])@),
        n < usage.images@[i].repo_tags@.len() ==> !unreal(usage.images@[i].repo_tags@[n]@) && tag
            == usage.images@[i].repo_tags@[n]@,
        n == usage.images@[i].repo_tags@.len() ==> tag == usage.images@[i].id@,
    ensures
        ({
            let published = applied(samples, changes_of(end));
            &&& sample(published, (Gauge::ImageSize, seq![tag])) is Some
            &&& sample(published, (Gauge::ImageContainerCount, seq![tag])) is Some
            &&& i == usage.images@.len() - 1 ==> sample(published, (Gauge::ImageSize, seq![tag]))
                == Some(GaugeValue::Whole(usage.images@[i].size)) && sample(
                published,
                (Gauge::ImageContainerCount, seq![tag]),
            ) == Some(GaugeValue::Whole(usage.images@[i].containers as u64))
        }),
{
    reveal(tracks_images);
    let image = usage.images@[i];
    let t = tracked_image(image);
    exactly_the_listed_images_are_tracked(
        config,
        before,
        usage,
        between,
        listing,
        results,
        after,
        end,
    );
    let keys = usage.images@.map_values(|x: Image| x.id@);
    assert forall|j: int| 0 <= j < i implies #[trigger] keys[j] != keys[i] by {
        assert(usage.images@[j].id@ != usage.images@[i].id@);
    }
    assert(comes_new(before.images, keys, i));
    assert(after.images.contains((image.id@, t)));
    let k = choose|k: int| 0 <= k < after.images.len() && after.images[k] == (image.id@, t);
    if n < image.repo_tags@.len() {
        images_go_by_their_first_real_tag(image, n);
    } else {
        images_without_a_real_tag_go_by_their_identifier(image);
    }
    assert(t.labels()[0] == tag);
    listed_images_are_published_after_an_update(
        config,
        before,
        usage,
        between,
        listing,
        results,
        after,
        end,
        samples,
        i,
        k,
    );
}

/// After an update that collects volumes, a volume that was tracked and is not listed has no
/// sample left.
pub proof fn volumes_that_are_gone_are_withdrawn(
    config: Config,
    before: Inventory,
    usage: DataUsage,
    between: Inventory,
    listing: UpdateAction,
    results: Vec<DockerResult<()>>,
    after: Inventory,
    end: UpdateAction,
    samples: Samples,
    k: int,
    gauge: Gauge,
)
    requires
        runs_through(
            config,
            before,
            DataReply::DataUsage(usage),
            between,
            listing,
            results,
            after,
            end,
        ),
        config.collect_volume_metrics,
        0 <= k < before.volumes.len(),
        forall|i: int|
            0 <= i < usage.volumes@.len() ==> (#[trigger] usage.volumes@[i]).name@
                != before.volumes[k].0,
        gauge == Gauge::VolumeSize || gauge == Gauge::VolumeContainerCount,
    ensures
        ({
            let t = before.volumes[k].1;
            let labels = seq![t.name, t.anonymous, t.driver, t.compose_project, t.service];
            sample(applied(samples, changes_of(end)), (gauge, labels)) is None
        }),
{
    lemma_ends(config, before, usage, between, listing, results, after, end);
    let volumes = listing->UpdateContainers_volumes;
    let images = listing->UpdateContainers_images;
    lemma_volumes_withdrawn(
        config,
        between,
        results,
        volumes,
        images,
        after,
        end,
        samples,
        k,
        gauge,
    );
}

/// After an update that collects images, an image that was tracked and is not listed has no
/// sample left, unless an image that is tracked then has its tag.
pub proof fn images_that_are_gone_are_withdrawn(
    config: Config,
    before: Inventory,
    usage: DataUsage,
    between: Inventory,
    listing: UpdateAction,
    results: Vec<DockerResult<()>>,
    after: Inventory,
    end: UpdateAction,
    samples: Samples,
    k: int,
    gauge: Gauge,
)
    requires
        runs_through(
            config,
            before,
            DataReply::DataUsage(usage),
            between,
            listing,
            results,
            after,
            end,
        ),
        config.collect_image_metrics,
        0 <= k < before.images.len(),
        forall|i: int|
            0 <= i < usage.images@.len() ==> (#[trigger] usage.images@[i]).id@
                != before.images[k].0,
        forall|l: int|
            0 <= l < after.images.len() ==> (#[trigger] after.images[l]).1.tag
                != before.images[k].1.tag,
        gauge == Gauge::ImageSize || gauge == Gauge::ImageContainerCount,
    ensures
        sample(applied(samples, changes_of(end)), (gauge, seq![before.images[k].1.tag])) is None,
{
    lemma_ends(config, before, usage, between, listing, results, after, end);
    let volumes = listing->UpdateContainers_volumes;
    let images = listing->UpdateContainers_images;
    lemma_images_withdrawn(
        config,
        between,
        results,
        volumes,
        images,
        after,
        end,
        samples,
        k,
        gauge,
    );
}

/// The end of an update leaves the samples of containers alone, those of volumes where volumes
/// are not collected, and those of images where images are not collected.
pub proof fn what_is_not_collected_stays(
    config: Config,
    before: Inventory,
    usage: DataUsage,
    between: Inventory,
    listing: UpdateAction,
    results: Vec<DockerResult<()>>,
    after: Inventory,
    end: UpdateAction,
    samples: Samples,
    series: Series,
)
    requires
        runs_through(
            config,
            before,
            DataReply::DataUsage(usage),
            between,
            listing,
            results,
            after,
            end,
        ),
        (series.0 == Gauge::VolumeSize || series.0 == Gauge::VolumeContainerCount)
            ==> !config.collect_volume_metrics,
        (series.0 == Gauge::ImageSize || series.0 == Gauge::ImageContainerCount)
            ==> !config.collect_image_metrics,
    ensures
        sample(applied(samples, changes_of(end)), series) == sample(samples, series),
{
    lemma_ends(config, before, usage, between, listing, results, after, end);
    let volumes = listing->UpdateContainers_volumes;
    let images = listing->UpdateContainers_images;
    lemma_uncollected_stay(
        config,
        between,
        results,
        volumes,
        images,
        after,
        end,
        samples,
        series,
    );
}

/// A listing can be tracked exactly where each of its containers is tracked already, has been
/// listed before, or can be shown under a name.
pub proof fn listings_can_be_tracked_where_names_can_be_shown(
    known: Seq<(Seq<char>, TrackedContainer)>,
    containers: Seq<Container>,
)
    ensures
        trackable(known, containers) <==> forall|i: int|
            0 <= i < containers.len() ==> nameable(#[trigger] containers[i]) || (exists|k: int|
                0 <= k < known.len() && (#[trigger] known[k]).0 == containers[i].id@) || (exists|
                j: int,
            |
                0 <= j < i && (#[trigger] containers[j]).id@ == containers[i].id@),
{
    assert forall|i: int| 0 <= i < containers.len() implies (first_listing(known, containers, i)
        <==> !(exists|k: int|
        0 <= k < known.len() && (#[trigger] known[k]).0 == containers[i].id@) && !(exists|j: int|
        0 <= j < i && (#[trigger] containers[j]).id@ == containers[i].id@)) by {
        let id = containers[i].id@;
        if has_key(known, id) {
            let k = choose|k: int| key_at(known, id, k);
            assert(known[k].0 == id);
        }
        if exists|k: int| 0 <= k < known.len() && (#[trigger] known[k]).0 == id {
            let k = choose|k: int| 0 <= k < known.len() && (#[trigger] known[k]).0 == id;
            assert(key_at(known, id, k));
        }
    }
}

/// Whatever was published before, after the changes each listed volume has the size and the
/// number of containers of its last listing published under the labels that it is tracked with.
#[verifier::opaque]
pub open spec fn shows_volumes(
    volumes: Seq<Volume>,
    known: Seq<(Seq<char>, TrackedVolume)>,
    list: Seq<Change>,
) -> bool {
    forall|samples: Samples, i: int, k: int|
        #![trigger applied(samples, list), volumes[i], known[k]]
        0 <= i < volumes.len() && 0 <= k < known.len() && known[k].0 == volumes[i].name@ && (
        forall|j: int| i < j < volumes.len() ==> (#[trigger] volumes[j]).name@ != volumes[i].name@)
            ==> {
            let t = known[k].1;
            let labels = seq![t.name, t.anonymous, t.driver, t.compose_project, t.service];
            &&& sample(applied(samples, list), (Gauge::VolumeSize, labels)) == Some(
                GaugeValue::Whole(volumes[i].usage_data.size),
            )
            &&& sample(applied(samples, list), (Gauge::VolumeContainerCount, labels)) == Some(
                GaugeValue::Whole(volumes[i].usage_data.ref_count as u64),
            )
        }
}

/// Whatever was published before, after the changes each listed image has a size and a number
/// of containers published under the tag that it is tracked with: its own, where no image with
/// the same tag is listed after it.
#[verifier::opaque]
pub open spec fn shows_images(
    images: Seq<Image>,
    known: Seq<(Seq<char>, TrackedImage)>,
    list: Seq<Change>,
) -> bool {
    forall|samples: Samples, i: int, k: int|
        #![trigger applied(samples, list), images[i], known[k]]
        0 <= i < images.len() && 0 <= k < known.len() && known[k].0 == images[i].id@ ==> {
            let labels = seq![known[k].1.tag];
            let published = applied(samples, list);
            &&& sample(published, (Gauge::ImageSize, labels)) is Some
            &&& sample(published, (Gauge::ImageContainerCount, labels)) is Some
            &&& (forall|j: int, l: int|
                #![trigger images[j], known[l]]
                i < j < images.len() && 0 <= l < known.len() && known[l].0 == images[j].id@
                    ==> known[l].1.tag != known[k].1.tag) ==> sample(
                published,
                (Gauge::ImageSize, labels),
            ) == Some(GaugeValue::Whole(images[i].size)) && sample(
                published,
                (Gauge::ImageContainerCount, labels),
            ) == Some(GaugeValue::Whole(images[i].containers as u64))
        }
}

/// The changes leave the samples of a gauge alone.
#[verifier::opaque]
pub open spec fn leaves_alone(gauge: Gauge, list: Seq<Change>) -> bool {
    forall|samples: Samples, labels: Seq<Seq<char>>|
        #![trigger sample(applied(samples, list), (gauge, labels))]
        sample(applied(samples, list), (gauge, labels)) == sample(samples, (gauge, labels))
}

/// What the end of an update owes: volumes are tracked and published exactly where they are
/// collected, and so are images, each whatever holds of the other; nothing else changes.
pub open spec fn settles(
    config: Config,
    before: Inventory,
    volumes: Seq<Volume>,
    images: Seq<Image>,
    after: Inventory,
    list: Seq<Change>,
) -> bool {
    &&& after.containers == before.containers
    &&& forall|gauge: Gauge| gauge.of_container() ==> #[trigger] leaves_alone(gauge, list)
    &&& config.collect_volume_metrics ==> tracks_volumes(before.volumes, volumes, after.volumes)
        && shows_volumes(volumes, after.volumes, list)
    &&& !config.collect_volume_metrics ==> after.volumes == before.volumes && leaves_alone(
        Gauge::VolumeSize,
        list,
    ) && leaves_alone(Gauge::VolumeContainerCount, list)
    &&& config.collect_image_metrics ==> tracks_images(before.images, images, after.images)
        && shows_images(images, after.images, list)
    &&& !config.collect_image_metrics ==> after.images == before.images && leaves_alone(
        Gauge::ImageSize,
        list,
    ) && leaves_alone(Gauge::ImageContainerCount, list)
}

proof fn lemma_shows_volumes(
    config: Config,
    before: Inventory,
    results: Vec<DockerResult<()>>,
    volumes: Vec<Volume>,
    images: Vec<Image>,
    after: Inventory,
    end: UpdateAction,
)
    requires
        ends(config, before, results, volumes, images, after, end),
        config.collect_volume_metrics,
    ensures
        shows_volumes(volumes@, after.volumes, changes_of(end)),
{
    reveal(shows_volumes);
    let list = changes_of(end);
    assert forall|samples: Samples, i: int, k: int|
        #![trigger applied(samples, list), volumes@[i], after.volumes[k]]
        0 <= i < volumes@.len() && 0 <= k < after.volumes.len() && after.volumes[k].0
            == volumes@[i].name@ && (forall|j: int|
            i < j < volumes@.len() ==> (#[trigger] volumes@[j]).name@ != volumes@[i].name@)
        implies {
        let t = after.volumes[k].1;
        let labels = seq![t.name, t.anonymous, t.driver, t.compose_project, t.service];
        &&& sample(applied(samples, list), (Gauge::VolumeSize, labels)) == Some(
            GaugeValue::Whole(volumes@[i].usage_data.size),
        )
        &&& sample(applied(samples, list), (Gauge::VolumeContainerCount, labels)) == Some(
            GaugeValue::Whole(volumes@[i].usage_data.ref_count as u64),
        )
    } by {
        lemma_volumes_published(
            config,
            before,
            results,
            volumes,
            images,
            after,
            end,
            samples,
            i,
            k,
        );
    }
}

proof fn lemma_shows_images(
    config: Config,
    before: Inventory,
    results: Vec<DockerResult<()>>,
    volumes: Vec<Volume>,
    images: Vec<Image>,
    after: Inventory,
    end: UpdateAction,
)
    requires
        ends(config, before, results, volumes, images, after, end),
        config.collect_image_metrics,
    ensures
        shows_images(images@, after.images, changes_of(end)),
{
    reveal(shows_images);
    let list = changes_of(end);
    assert forall|samples: Samples, i: int, k: int|
        #![trigger applied(samples, list), images@[i], after.images[k]]
        0 <= i < images@.len() && 0 <= k < after.images.len() && after.images[k].0
            == images@[i].id@ implies {
        let labels = seq![after.images[k].1.tag];
        let published = applied(samples, list);
        &&& sample(published, (Gauge::ImageSize, labels)) is Some
        &&& sample(published, (Gauge::ImageContainerCount, labels)) is Some
        &&& (forall|j: int, l: int|
            #![trigger images@[j], after.images[l]]
            i < j < images@.len() && 0 <= l < after.images.len() && after.images[l].0
                == images@[j].id@ ==> after.images[l].1.tag != after.images[k].1.tag)
            ==> sample(published, (Gauge::ImageSize, labels)) == Some(
            GaugeValue::Whole(images@[i].size),
        ) && sample(published, (Gauge::ImageContainerCount, labels)) == Some(
            GaugeValue::Whole(images@[i].containers as u64),
        )
    } by {
        lemma_images_published(
            config,
            before,
            results,
            volumes,
            images,
            after,
            end,
            samples,
            i,
            k,
        );
    }
}

proof fn lemma_leaves_alone(
    config: Config,
    before: Inventory,
    results: Vec<DockerResult<()>>,
    volumes: Vec<Volume>,
    images: Vec<Image>,
    after: Inventory,
    end: UpdateAction,
    gauge: Gauge,
)
    requires
        ends(config, before, results, volumes, images, after, end),
        gauge.of_volume() ==> !config.collect_volume_metrics,
        !gauge.of_container() && !gauge.of_volume() ==> !config.collect_image_metrics,
    ensures
        leaves_alone(gauge, changes_of(end)),
{
    reveal(leaves_alone);
    let list = changes_of(end);
    assert forall|samples: Samples, labels: Seq<Seq<char>>|
        #![trigger sample(applied(samples, list), (gauge, labels))]
        sample(applied(samples, list), (gauge, labels)) == sample(samples, (gauge, labels)) by {
        lemma_uncollected_stay(
            config,
            before,
            results,
            volumes,
            images,
            after,
            end,
            samples,
            (gauge, labels),
        );
    }
}

proof fn lemma_settles_tracking(
    config: Config,
    before: Inventory,
    results: Vec<DockerResult<()>>,
    volumes: Vec<Volume>,
    images: Vec<Image>,
    after: Inventory,
    end: UpdateAction,
)
    requires
        ends(config, before, results, volumes, images, after, end),
    ensures
        config.collect_volume_metrics ==> tracks_volumes(before.volumes, volumes@, after.volumes),
        config.collect_image_metrics ==> tracks_images(before.images, images@, after.images),
{
    if config.collect_volume_metrics {
        assert(after.volumes == synced(before.volumes, listed_volumes(volumes@)));
        lemma_volumes_tracked(before.volumes, volumes@);
    }
    if config.collect_image_metrics {
        assert(after.images == synced(before.images, listed_images(images@)));
        lemma_images_tracked(before.images, images@);
    }
}

/// The step that ends an update does what is owed.
pub proof fn updates_settle(
    config: Config,
    before: Inventory,
    results: Vec<DockerResult<()>>,
    volumes: Vec<Volume>,
    images: Vec<Image>,
    after: Inventory,
    end: UpdateAction,
)
    requires
        ends(config, before, results, volumes, images, after, end),
    ensures
        settles(config, before, volumes@, images@, after, changes_of(end)),
{
    let list = changes_of(end);
    lemma_settles_tracking(config, before, results, volumes, images, after, end);
    if config.collect_volume_metrics {
        lemma_shows_volumes(config, before, results, volumes, images, after, end);
    }
    if config.collect_image_metrics {
        lemma_shows_images(config, before, results, volumes, images, after, end);
    }
    assert forall|gauge: Gauge|
        gauge.of_container() || (gauge.of_volume() && !config.collect_volume_metrics) || (
        !gauge.of_container() && !gauge.of_volume() && !config.collect_image_metrics) implies
        #[trigger] leaves_alone(gauge, list) by {
        lemma_leaves_alone(config, before, results, volumes, images, after, end, gauge);
    }
}

} // verus!
