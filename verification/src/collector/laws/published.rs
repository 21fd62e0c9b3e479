//! What is published belongs to what is tracked.

use super::containers::{
    container_updates_touch_own_samples_only, container_withdrawals_touch_those_containers_only,
    outdated_containers_are_withdrawn, series_of_container,
};
use super::images::{
    image_listings_touch_images_only, listed_images_are_published, outdated_images_are_withdrawn,
    series_of_image,
};
use super::volumes::{
    listed_volumes_are_published, outdated_volumes_are_withdrawn, series_of_volume,
    volume_listings_touch_volumes_only,
};
use super::{
    what_is_listed_is_tracked, what_is_not_listed_is_outdated, what_stays_listed_stays_as_it_was,
};
use crate::collector::metrics::Gauge;
use crate::collector::samples::{
    applied, changes, changes_compose, sample, touches, untouched_samples_stay, Change, Samples,
    Series,
};
use crate::collector::trackers::{
    container_step, ContainerEvent, ContainerStep, TrackedContainer, TrackedImage, TrackedVolume,
};
use crate::collector::{
    container_withdrawals, containers_in, image_changes, lemma_synced_all, listed_containers,
    listed_images, listed_volumes, outdated, synced, update_step, volume_changes, Inventory,
    UpdateAction, UpdateEvent,
};
use crate::config::Config;
use crate::docker::{Container, Image, Volume};
use crate::string_map::{distinct_keys, has_key, key_at, lemma_value_at, value_under, values};
use vstd::prelude::*;

verus! {

/// The series belongs to something that is tracked.
pub open spec fn accounts_for(inventory: Inventory, series: Series) -> bool {
    ||| exists|t: TrackedContainer|
        values(inventory.containers).contains(t) && #[trigger] series_of_container(t, series)
    ||| exists|t: TrackedVolume|
        values(inventory.volumes).contains(t) && #[trigger] series_of_volume(t, series)
    ||| exists|t: TrackedImage|
        values(inventory.images).contains(t) && #[trigger] series_of_image(t, series)
}

/// Every sample belongs to something that is tracked.
pub open spec fn covers(inventory: Inventory, samples: Samples) -> bool {
    forall|series: Series| #[trigger]
        samples.contains_key(series) ==> accounts_for(inventory, series)
}

/// What was tracked is tracked still or outdated.
proof fn lemma_stays_or_goes<T>(known: Seq<(Seq<char>, T)>, listed: Seq<(Seq<char>, T)>, value: T)
    requires
        distinct_keys(known),
        values(known).contains(value),
    ensures
        values(synced(known, listed)).contains(value) || outdated(known, listed).contains(value),
{
    let i = choose|i: int| 0 <= i < values(known).len() && values(known)[i] == value;
    let key = known[i].0;
    lemma_value_at(known, i);
    assert(value_under(known, key) == value);
    if has_key(listed, key) {
        let next = synced(known, listed);
        what_is_listed_is_tracked(known, listed);
        what_stays_listed_stays_as_it_was(known, listed, key);
        let j = choose|j: int| key_at(next, key, j);
        lemma_value_at(next, j);
        assert(values(next)[j] == value);
    } else {
        what_is_not_listed_is_outdated(known, listed, value);
    }
}

/// A listing of containers leaves no samples of what is tracked no more.
pub proof fn container_listings_leave_nothing_behind(
    before: Inventory,
    containers: Seq<Container>,
    samples: Samples,
)
    requires
        before.valid(),
        covers(before, samples),
    ensures
        ({
            let listed = listed_containers(containers);
            covers(
                (Inventory { containers: synced(before.containers, listed), ..before }),
                applied(samples, container_withdrawals(outdated(before.containers, listed))),
            )
        }),
{
    let listed = listed_containers(containers);
    let old = outdated(before.containers, listed);
    let next = Inventory { containers: synced(before.containers, listed), ..before };
    let after = applied(samples, container_withdrawals(old));
    assert forall|series: Series| #[trigger] after.contains_key(series) implies accounts_for(
        next,
        series,
    ) by {
        assert(sample(after, series) is Some);
        if exists|t: TrackedContainer|
            old.contains(t) && #[trigger] series_of_container(t, series)
        {
            let t = choose|t: TrackedContainer|
                old.contains(t) && #[trigger] series_of_container(t, series);
            outdated_containers_are_withdrawn(samples, old, t, series);
        } else {
            container_withdrawals_touch_those_containers_only(samples, old, series);
            assert(samples.contains_key(series));
            if series.0.of_container() {
                let t = choose|t: TrackedContainer|
                    values(before.containers).contains(t) && #[trigger] series_of_container(t, series);
                lemma_stays_or_goes(before.containers, listed, t);
                assert(values(next.containers).contains(t));
            }
        }
    }
}

/// A listing of volumes leaves no samples of what is tracked no more.
pub proof fn volume_listings_leave_nothing_behind(
    before: Inventory,
    volumes: Seq<Volume>,
    samples: Samples,
)
    requires
        before.valid(),
        covers(before, samples),
    ensures
        covers(
            (Inventory { volumes: synced(before.volumes, listed_volumes(volumes)), ..before }),
            applied(samples, volume_changes(before.volumes, volumes)),
        ),
{
    let listed = listed_volumes(volumes);
    let old = outdated(before.volumes, listed);
    let next = Inventory { volumes: synced(before.volumes, listed), ..before };
    let after = applied(samples, volume_changes(before.volumes, volumes));
    assert forall|series: Series| #[trigger] after.contains_key(series) implies accounts_for(
        next,
        series,
    ) by {
        assert(sample(after, series) is Some);
        if !(exists|t: TrackedVolume|
            values(next.volumes).contains(t) && #[trigger] series_of_volume(t, series))
        {
            if exists|t: TrackedVolume| old.contains(t) && #[trigger] series_of_volume(t, series) {
                let t = choose|t: TrackedVolume|
                    old.contains(t) && #[trigger] series_of_volume(t, series);
                outdated_volumes_are_withdrawn(samples, before.volumes, volumes, t, series);
            } else {
                volume_listings_touch_volumes_only(samples, before.volumes, volumes, series);
                assert(samples.contains_key(series));
                if series.0.of_volume() {
                    let t = choose|t: TrackedVolume|
                        values(before.volumes).contains(t) && #[trigger] series_of_volume(t, series);
                    lemma_stays_or_goes(before.volumes, listed, t);
                }
            }
        }
    }
}

/// A listing of images leaves no samples of what is tracked no more.
pub proof fn image_listings_leave_nothing_behind(
    before: Inventory,
    images: Seq<Image>,
    samples: Samples,
)
    requires
        before.valid(),
        covers(before, samples),
    ensures
        covers(
            (Inventory { images: synced(before.images, listed_images(images)), ..before }),
            applied(samples, image_changes(before.images, images)),
        ),
{
    let listed = listed_images(images);
    let old = outdated(before.images, listed);
    let next = Inventory { images: synced(before.images, listed), ..before };
    let after = applied(samples, image_changes(before.images, images));
    assert forall|series: Series| #[trigger] after.contains_key(series) implies accounts_for(
        next,
        series,
    ) by {
        assert(sample(after, series) is Some);
        if !(exists|t: TrackedImage|
            values(next.images).contains(t) && #[trigger] series_of_image(t, series))
        {
            if exists|t: TrackedImage| old.contains(t) && #[trigger] series_of_image(t, series) {
                let t = choose|t: TrackedImage|
                    old.contains(t) && #[trigger] series_of_image(t, series);
                assert forall|u: TrackedImage| values(next.images).contains(u) implies (
                #[trigger] u.labels()) != t.labels() by {
                    assert(!series_of_image(u, series));
                }
                outdated_images_are_withdrawn(samples, before.images, images, t, series);
            } else {
                image_listings_touch_images_only(samples, before.images, images, series);
                assert(samples.contains_key(series));
                if !series.0.of_container() && !series.0.of_volume() {
                    let t = choose|t: TrackedImage|
                        values(before.images).contains(t) && #[trigger] series_of_image(t, series);
                    lemma_stays_or_goes(before.images, listed, t);
                }
            }
        }
    }
}

/// The changes that an action makes.
pub open spec fn changes_of(action: UpdateAction) -> Seq<Change> {
    match action {
        UpdateAction::Query(_) => Seq::empty(),
        UpdateAction::UpdateContainers { changes: list, .. } => changes(list@),
        UpdateAction::Finish { changes: list, .. } => changes(list@),
    }
}

/// No step of an update publishes anything of what is not tracked, and none leaves anything
/// published of what it ceases to track.
pub proof fn only_what_is_tracked_is_published(
    config: Config,
    before: Inventory,
    event: UpdateEvent,
    after: Inventory,
    action: UpdateAction,
    samples: Samples,
)
    requires
        before.valid(),
        covers(before, samples),
        update_step(config, before, event, after, action),
    ensures
        covers(after, applied(samples, changes_of(action))),
{
    match event {
        UpdateEvent::Begin => {},
        UpdateEvent::Data(Err(_)) => {},
        UpdateEvent::Data(Ok(reply)) => {
            container_listings_leave_nothing_behind(before, containers_in(reply), samples);
        },
        UpdateEvent::ContainersUpdated { results, volumes, images } => {
            let first = if config.collect_volume_metrics {
                volume_changes(before.volumes, volumes@)
            } else {
                Seq::empty()
            };
            let second = if config.collect_image_metrics {
                image_changes(before.images, images@)
            } else {
                Seq::empty()
            };
            let between = Inventory { volumes: after.volumes, ..before };
            if config.collect_volume_metrics {
                volume_listings_leave_nothing_behind(before, volumes@, samples);
                what_is_listed_is_tracked(before.volumes, listed_volumes(volumes@));
                lemma_synced_all(
                    before.volumes,
                    listed_volumes(volumes@),
                    |e: (Seq<char>, TrackedVolume)| e.1.name == e.0,
                );
            }
            assert(covers(between, applied(samples, first)));
            if config.collect_image_metrics {
                image_listings_leave_nothing_behind(between, images@, applied(samples, first));
            }
            assert(after == Inventory { images: after.images, ..between });
            changes_compose(samples, first, second);
        },
    }
}

/// No step of the update of a tracked container publishes anything of what is not tracked.
pub proof fn container_updates_publish_what_is_tracked(
    inventory: Inventory,
    t: TrackedContainer,
    event: ContainerEvent,
    step: ContainerStep,
    samples: Samples,
)
    requires
        values(inventory.containers).contains(t),
        covers(inventory, samples),
        container_step(t.labels(), event, step),
    ensures
        covers(inventory, applied(samples, changes(step.changes@))),
{
    let list = changes(step.changes@);
    let after = applied(samples, list);
    assert forall|series: Series| #[trigger] after.contains_key(series) implies accounts_for(
        inventory,
        series,
    ) by {
        if !series_of_container(t, series) {
            assert(sample(after, series) is Some);
            if touches(list, series) {
                container_updates_touch_own_samples_only(t, event, step, series);
            }
            untouched_samples_stay(samples, list, series);
            assert(samples.contains_key(series));
        }
    }
}

/// Of the places where something holds, there is a last one.
pub proof fn lemma_last_place(n: int, p: spec_fn(int) -> bool, k: int) -> (i: int)
    requires
        0 <= k < n,
        p(k),
    ensures
        0 <= i < n,
        p(i),
        forall|j: int| i < j < n ==> !#[trigger] p(j),
    decreases n - k,
{
    if exists|j: int| k < j < n && #[trigger] p(j) {
        let j = choose|j: int| k < j < n && #[trigger] p(j);
        lemma_last_place(n, p, j)
    } else {
        k
    }
}

/// After a listing of volumes the samples of volumes are exactly those of the tracked volumes.
pub proof fn exactly_the_tracked_volumes_are_published(
    before: Inventory,
    volumes: Seq<Volume>,
    samples: Samples,
    series: Series,
)
    requires
        before.valid(),
        covers(before, samples),
        series.0.of_volume(),
    ensures
        sample(applied(samples, volume_changes(before.volumes, volumes)), series) is Some
            <==> exists|t: TrackedVolume|
            values(synced(before.volumes, listed_volumes(volumes))).contains(t)
                && #[trigger] series_of_volume(t, series),
{
    let listed = listed_volumes(volumes);
    let next = synced(before.volumes, listed);
    let after = applied(samples, volume_changes(before.volumes, volumes));
    volume_listings_leave_nothing_behind(before, volumes, samples);
    if sample(after, series) is Some {
        assert(after.contains_key(series));
    }
    if exists|t: TrackedVolume| values(next).contains(t) && #[trigger] series_of_volume(t, series) {
        let t = choose|t: TrackedVolume|
            values(next).contains(t) && #[trigger] series_of_volume(t, series);
        let at = choose|at: int| 0 <= at < values(next).len() && values(next)[at] == t;
        what_is_listed_is_tracked(before.volumes, listed);
        lemma_value_at(next, at);
        let key = next[at].0;
        assert(has_key(listed, key));
        let k = choose|k: int| key_at(listed, key, k);
        let p = |j: int| volumes[j].name@ == key;
        assert(p(k));
        let i = lemma_last_place(volumes.len() as int, p, k);
        assert forall|j: int| i < j < volumes.len() implies (#[trigger] volumes[j]).name@
            != volumes[i].name@ by {
            assert(!p(j));
        }
        listed_volumes_are_published(samples, before.volumes, volumes, i);
        assert(series == (Gauge::VolumeSize, t.labels()) || series == (
            Gauge::VolumeContainerCount,
            t.labels(),
        ));
    }
}

/// After a listing of images the samples of images are exactly those of the tracked images.
pub proof fn exactly_the_tracked_images_are_published(
    before: Inventory,
    images: Seq<Image>,
    samples: Samples,
    series: Series,
)
    requires
        before.valid(),
        covers(before, samples),
        !series.0.of_container(),
        !series.0.of_volume(),
    ensures
        sample(applied(samples, image_changes(before.images, images)), series) is Some
            <==> exists|t: TrackedImage|
            values(synced(before.images, listed_images(images))).contains(t)
                && #[trigger] series_of_image(t, series),
{
    let listed = listed_images(images);
    let next = synced(before.images, listed);
    let after = applied(samples, image_changes(before.images, images));
    image_listings_leave_nothing_behind(before, images, samples);
    if sample(after, series) is Some {
        assert(after.contains_key(series));
    }
    if exists|t: TrackedImage| values(next).contains(t) && #[trigger] series_of_image(t, series) {
        let t = choose|t: TrackedImage|
            values(next).contains(t) && #[trigger] series_of_image(t, series);
        let at = choose|at: int| 0 <= at < values(next).len() && values(next)[at] == t;
        what_is_listed_is_tracked(before.images, listed);
        lemma_value_at(next, at);
        let key = next[at].0;
        assert(has_key(listed, key));
        let k = choose|k: int| key_at(listed, key, k);
        let p = |j: int| value_under(next, images[j].id@).tag == t.tag;
        assert(p(k));
        let i = lemma_last_place(images.len() as int, p, k);
        assert forall|j: int| i < j < images.len() implies value_under(
            next,
            (#[trigger] images[j]).id@,
        ).tag != value_under(next, images[i].id@).tag by {
            assert(!p(j));
        }
        listed_images_are_published(samples, before.images, images, i);
        assert(value_under(next, images[i].id@).labels() =~= t.labels());
        assert(series == (Gauge::ImageSize, t.labels()) || series == (
            Gauge::ImageContainerCount,
            t.labels(),
        ));
    }
}

/// Where there are no samples yet, each of them belongs to something that is tracked, whatever
/// is tracked.
pub proof fn nothing_is_published_at_first(inventory: Inventory)
    ensures
        covers(inventory, Map::empty()),
{
}

} // verus!
