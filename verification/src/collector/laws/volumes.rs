//! What holds of the samples of volumes.

use super::{what_is_listed_is_tracked, what_is_not_listed_is_outdated};
use crate::collector::metrics::Gauge;
use crate::collector::samples::{
    applied, changes_compose, lemma_flatten_last, lemma_flatten_untouched, lemma_flatten_withdrawn,
    sample, touches, GaugeValue, Samples, Series,
};
use crate::collector::trackers::TrackedVolume;
use crate::collector::{
    lemma_synced_all, listed_volumes, outdated, synced, volume_changes, volume_withdrawals,
};
use crate::docker::{Volume, VolumeUsage};
use crate::string_map::{distinct_keys, has_key, key_at, lemma_value_at, value_under, values};
use vstd::prelude::*;

verus! {

/// The series is one of the volume.
pub open spec fn series_of_volume(t: TrackedVolume, series: Series) -> bool {
    series.0.of_volume() && series.1 == t.labels()
}

proof fn lemma_volume_touches(t: TrackedVolume, usage: VolumeUsage, series: Series)
    ensures
        touches(t.usage_changes(usage), series) == series_of_volume(t, series),
{
    let list = t.usage_changes(usage);
    if series_of_volume(t, series) {
        if series.0 == Gauge::VolumeSize {
            assert(list[0].series == series);
        } else {
            assert(series.0 == Gauge::VolumeContainerCount);
            assert(list[1].series == series);
        }
    }
}

proof fn lemma_volume_withdrawal_touches(t: TrackedVolume, series: Series)
    ensures
        touches(t.withdrawal(), series) == series_of_volume(t, series),
{
    let list = t.withdrawal();
    if series_of_volume(t, series) {
        if series.0 == Gauge::VolumeSize {
            assert(list[0].series == series);
        } else {
            assert(series.0 == Gauge::VolumeContainerCount);
            assert(list[1].series == series);
        }
    }
}

/// Volumes with different names have different labels, so that no two of them share a sample.
pub proof fn volumes_share_no_samples(a: TrackedVolume, b: TrackedVolume)
    requires
        a.labels() == b.labels(),
    ensures
        a == b,
{
    assert(a.labels()[0] == b.labels()[0]);
    assert(a.labels()[1] == b.labels()[1]);
    assert(a.labels()[2] == b.labels()[2]);
    assert(a.labels()[3] == b.labels()[3]);
    assert(a.labels()[4] == b.labels()[4]);
}

/// Every tracked volume stands under its own name.
pub open spec fn volumes_named(known: Seq<(Seq<char>, TrackedVolume)>) -> bool {
    &&& distinct_keys(known)
    &&& forall|i: int| 0 <= i < known.len() ==> (#[trigger] known[i]).1.name == known[i].0
}

proof fn lemma_synced_volumes_named(
    known: Seq<(Seq<char>, TrackedVolume)>,
    volumes: Seq<Volume>,
)
    requires
        volumes_named(known),
    ensures
        volumes_named(synced(known, listed_volumes(volumes))),
        forall|i: int|
            0 <= i < volumes.len() ==> {
                let after = synced(known, listed_volumes(volumes));
                &&& has_key(after, (#[trigger] volumes[i]).name@)
                &&& value_under(after, volumes[i].name@).name == volumes[i].name@
            },
{
    let listed = listed_volumes(volumes);
    let after = synced(known, listed);
    what_is_listed_is_tracked(known, listed);
    lemma_synced_all(known, listed, |e: (Seq<char>, TrackedVolume)| e.1.name == e.0);
    assert forall|i: int| 0 <= i < volumes.len() implies {
        &&& has_key(after, (#[trigger] volumes[i]).name@)
        &&& value_under(after, volumes[i].name@).name == volumes[i].name@
    } by {
        let name = volumes[i].name@;
        assert(key_at(listed, name, i));
        assert(has_key(listed, name));
        let j = choose|j: int| key_at(after, name, j);
        lemma_value_at(after, j);
    }
}

/// After a listing the samples of every listed volume say what the last listing of its name
/// says, under the labels that the volume is tracked with.
pub proof fn listed_volumes_are_published(
    samples: Samples,
    known: Seq<(Seq<char>, TrackedVolume)>,
    volumes: Seq<Volume>,
    i: int,
)
    requires
        volumes_named(known),
        0 <= i < volumes.len(),
        forall|j: int| i < j < volumes.len() ==> (#[trigger] volumes[j]).name@ != volumes[i].name@,
    ensures
        ({
            let after = applied(samples, volume_changes(known, volumes));
            let t = value_under(synced(known, listed_volumes(volumes)), volumes[i].name@);
            &&& sample(after, (Gauge::VolumeSize, t.labels())) == Some(
                GaugeValue::Whole(volumes[i].usage_data.size),
            )
            &&& sample(after, (Gauge::VolumeContainerCount, t.labels())) == Some(
                GaugeValue::Whole(volumes[i].usage_data.ref_count as u64),
            )
        }),
{
    let next = synced(known, listed_volumes(volumes));
    let t = value_under(next, volumes[i].name@);
    let size: Series = (Gauge::VolumeSize, t.labels());
    let count: Series = (Gauge::VolumeContainerCount, t.labels());
    let gone = volume_withdrawals(outdated(known, listed_volumes(volumes)));
    let f = |v: Volume| value_under(next, v.name@).usage_changes(v.usage_data);
    let lists = volumes.map_values(f);
    lemma_synced_volumes_named(known, volumes);
    changes_compose(samples, gone, lists.flatten());
    let between = applied(samples, gone);
    assert(lists[i] == t.usage_changes(volumes[i].usage_data));
    lemma_volume_touches(t, volumes[i].usage_data, size);
    lemma_volume_touches(t, volumes[i].usage_data, count);
    assert forall|j: int| i < j < lists.len() implies !touches(#[trigger] lists[j], size)
        && !touches(lists[j], count) by {
        let u = value_under(next, volumes[j].name@);
        assert(volumes[j].name@ != volumes[i].name@);
        assert(lists[j] == u.usage_changes(volumes[j].usage_data));
        lemma_volume_touches(u, volumes[j].usage_data, size);
        lemma_volume_touches(u, volumes[j].usage_data, count);
        if u.labels() == t.labels() {
            volumes_share_no_samples(u, t);
        }
    }
    lemma_flatten_last(between, lists, size, i);
    lemma_flatten_last(between, lists, count, i);
    reveal_with_fuel(applied, 3);
    assert(lists[i].drop_last().drop_last() =~= Seq::empty());
    assert(lists[i].drop_last().last() == lists[i][0]);
}

/// After a listing no sample is left of a volume that is tracked no more.
pub proof fn outdated_volumes_are_withdrawn(
    samples: Samples,
    known: Seq<(Seq<char>, TrackedVolume)>,
    volumes: Seq<Volume>,
    t: TrackedVolume,
    series: Series,
)
    requires
        volumes_named(known),
        outdated(known, listed_volumes(volumes)).contains(t),
        series_of_volume(t, series),
    ensures
        sample(applied(samples, volume_changes(known, volumes)), series) is None,
{
    let listed = listed_volumes(volumes);
    let next = synced(known, listed);
    let old = outdated(known, listed);
    let w = |u: TrackedVolume| u.withdrawal();
    let f = |v: Volume| value_under(next, v.name@).usage_changes(v.usage_data);
    let gone = old.map_values(w);
    let lists = volumes.map_values(f);
    lemma_synced_volumes_named(known, volumes);
    what_is_not_listed_is_outdated(known, listed, t);
    let key = choose|key: Seq<char>|
        has_key(known, key) && !has_key(listed, key) && #[trigger] value_under(known, key) == t;
    let at = choose|at: int| key_at(known, key, at);
    lemma_value_at(known, at);
    assert(t.name == key);
    let k = choose|k: int| 0 <= k < old.len() && old[k] == t;
    assert(gone[k] == t.withdrawal());
    lemma_volume_withdrawal_touches(t, series);
    assert forall|i: int, j: int|
        0 <= i < gone.len() && 0 <= j < gone[i].len() implies (#[trigger] gone[i][j]).value is None by {
        assert(gone[i] == old[i].withdrawal());
    }
    lemma_flatten_withdrawn(samples, gone, series, k);
    changes_compose(samples, gone.flatten(), lists.flatten());
    assert forall|j: int| 0 <= j < lists.len() implies !touches(#[trigger] lists[j], series) by {
        let u = value_under(next, volumes[j].name@);
        assert(lists[j] == u.usage_changes(volumes[j].usage_data));
        lemma_volume_touches(u, volumes[j].usage_data, series);
        assert(key_at(listed, volumes[j].name@, j));
        if u.labels() == t.labels() {
            volumes_share_no_samples(u, t);
        }
    }
    lemma_flatten_untouched(applied(samples, gone.flatten()), lists, series);
}

/// A listing of volumes touches no samples but those of volumes that were tracked before or
/// are tracked after it.
pub proof fn volume_listings_touch_volumes_only(
    samples: Samples,
    known: Seq<(Seq<char>, TrackedVolume)>,
    volumes: Seq<Volume>,
    series: Series,
)
    requires
        volumes_named(known),
        forall|t: TrackedVolume|
            outdated(known, listed_volumes(volumes)).contains(t) || values(
                synced(known, listed_volumes(volumes)),
            ).contains(t) ==> !#[trigger] series_of_volume(t, series),
    ensures
        sample(applied(samples, volume_changes(known, volumes)), series) == sample(samples, series),
{
    let listed = listed_volumes(volumes);
    let next = synced(known, listed);
    let old = outdated(known, listed);
    let w = |u: TrackedVolume| u.withdrawal();
    let f = |v: Volume| value_under(next, v.name@).usage_changes(v.usage_data);
    let gone = old.map_values(w);
    let lists = volumes.map_values(f);
    lemma_synced_volumes_named(known, volumes);
    assert forall|j: int| 0 <= j < gone.len() implies !touches(#[trigger] gone[j], series) by {
        assert(old.contains(old[j]));
        assert(!series_of_volume(old[j], series));
        assert(gone[j] == old[j].withdrawal());
        lemma_volume_withdrawal_touches(old[j], series);
    }
    assert forall|j: int| 0 <= j < lists.len() implies !touches(#[trigger] lists[j], series) by {
        let name = volumes[j].name@;
        let u = value_under(next, name);
        assert(has_key(next, volumes[j].name@));
        let at = choose|at: int| key_at(next, name, at);
        lemma_value_at(next, at);
        assert(values(next)[at] == u);
        assert(!series_of_volume(u, series));
        assert(lists[j] == u.usage_changes(volumes[j].usage_data));
        lemma_volume_touches(u, volumes[j].usage_data, series);
    }
    lemma_flatten_untouched(samples, gone, series);
    changes_compose(samples, gone.flatten(), lists.flatten());
    lemma_flatten_untouched(applied(samples, gone.flatten()), lists, series);
}

} // verus!
