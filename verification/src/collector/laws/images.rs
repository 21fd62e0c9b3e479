//! What holds of the samples of images.

use super::what_is_listed_is_tracked;
use crate::collector::metrics::Gauge;
use crate::collector::samples::{
    applied, changes_compose, lemma_flatten_last, lemma_flatten_untouched, lemma_flatten_withdrawn,
    sample, touches, GaugeValue, Samples, Series,
};
use crate::collector::trackers::TrackedImage;
use crate::collector::{
    image_changes, image_withdrawals, lemma_synced_all, listed_images, outdated, synced,
};
use crate::docker::Image;
use crate::string_map::{distinct_keys, has_key, key_at, lemma_value_at, value_under, values};
use vstd::prelude::*;

verus! {

/// The series is one of the image.
pub open spec fn series_of_image(t: TrackedImage, series: Series) -> bool {
    !series.0.of_container() && !series.0.of_volume() && series.1 == t.labels()
}

proof fn lemma_image_touches(t: TrackedImage, containers: u32, size: u64, series: Series)
    ensures
        touches(t.listing_changes(containers, size), series) == series_of_image(t, series),
{
    let list = t.listing_changes(containers, size);
    if series_of_image(t, series) {
        if series.0 == Gauge::ImageContainerCount {
            assert(list[0].series == series);
        } else {
            assert(series.0 == Gauge::ImageSize);
            assert(list[1].series == series);
        }
    }
}

proof fn lemma_image_withdrawal_touches(t: TrackedImage, series: Series)
    ensures
        touches(t.withdrawal(), series) == series_of_image(t, series),
{
    let list = t.withdrawal();
    if series_of_image(t, series) {
        if series.0 == Gauge::ImageContainerCount {
            assert(list[0].series == series);
        } else {
            assert(series.0 == Gauge::ImageSize);
            assert(list[1].series == series);
        }
    }
}

/// Every tracked image stands under its own identifier.
pub open spec fn images_named(known: Seq<(Seq<char>, TrackedImage)>) -> bool {
    &&& distinct_keys(known)
    &&& forall|i: int| 0 <= i < known.len() ==> (#[trigger] known[i]).1.id == known[i].0
}

proof fn lemma_synced_images_named(
    known: Seq<(Seq<char>, TrackedImage)>,
    images: Seq<Image>,
)
    requires
        images_named(known),
    ensures
        images_named(synced(known, listed_images(images))),
        forall|i: int|
            0 <= i < images.len() ==> {
                let after = synced(known, listed_images(images));
                &&& has_key(after, (#[trigger] images[i]).id@)
                &&& value_under(after, images[i].id@).id == images[i].id@
            },
{
    let listed = listed_images(images);
    let after = synced(known, listed);
    what_is_listed_is_tracked(known, listed);
    lemma_synced_all(known, listed, |e: (Seq<char>, TrackedImage)| e.1.id == e.0);
    assert forall|i: int| 0 <= i < images.len() implies {
        &&& has_key(after, (#[trigger] images[i]).id@)
        &&& value_under(after, images[i].id@).id == images[i].id@
    } by {
        let id = images[i].id@;
        assert(key_at(listed, id, i));
        assert(has_key(listed, id));
        let j = choose|j: int| key_at(after, id, j);
        lemma_value_at(after, j);
    }
}

/// After a listing the samples of every listed image say what the listing says, under the tag
/// that the image is tracked with. Where images share a tag, the last of them counts.
pub proof fn listed_images_are_published(
    samples: Samples,
    known: Seq<(Seq<char>, TrackedImage)>,
    images: Seq<Image>,
    i: int,
)
    requires
        images_named(known),
        0 <= i < images.len(),
        forall|j: int|
            i < j < images.len() ==> value_under(
                synced(known, listed_images(images)),
                (#[trigger] images[j]).id@,
            ).tag != value_under(synced(known, listed_images(images)), images[i].id@).tag,
    ensures
        ({
            let after = applied(samples, image_changes(known, images));
            let t = value_under(synced(known, listed_images(images)), images[i].id@);
            &&& sample(after, (Gauge::ImageContainerCount, t.labels())) == Some(
                GaugeValue::Whole(images[i].containers as u64),
            )
            &&& sample(after, (Gauge::ImageSize, t.labels())) == Some(
                GaugeValue::Whole(images[i].size),
            )
        }),
{
    let next = synced(known, listed_images(images));
    let t = value_under(next, images[i].id@);
    let count: Series = (Gauge::ImageContainerCount, t.labels());
    let size: Series = (Gauge::ImageSize, t.labels());
    let gone = image_withdrawals(outdated(known, listed_images(images)));
    let f = |v: Image| value_under(next, v.id@).listing_changes(v.containers, v.size);
    let lists = images.map_values(f);
    lemma_synced_images_named(known, images);
    changes_compose(samples, gone, lists.flatten());
    let between = applied(samples, gone);
    assert(lists[i] == t.listing_changes(images[i].containers, images[i].size));
    lemma_image_touches(t, images[i].containers, images[i].size, size);
    lemma_image_touches(t, images[i].containers, images[i].size, count);
    assert forall|j: int| i < j < lists.len() implies !touches(#[trigger] lists[j], size)
        && !touches(lists[j], count) by {
        let u = value_under(next, images[j].id@);
        assert(u.tag != t.tag);
        assert(lists[j] == u.listing_changes(images[j].containers, images[j].size));
        lemma_image_touches(u, images[j].containers, images[j].size, size);
        lemma_image_touches(u, images[j].containers, images[j].size, count);
        if u.labels() == t.labels() {
            assert(u.labels()[0] == t.labels()[0]);
        }
    }
    lemma_flatten_last(between, lists, size, i);
    lemma_flatten_last(between, lists, count, i);
    reveal_with_fuel(applied, 3);
    assert(lists[i].drop_last().drop_last() =~= Seq::empty());
    assert(lists[i].drop_last().last() == lists[i][0]);
}

/// After a listing no sample is left of an image that is tracked no more, unless an image that
/// is tracked then has the same tag.
pub proof fn outdated_images_are_withdrawn(
    samples: Samples,
    known: Seq<(Seq<char>, TrackedImage)>,
    images: Seq<Image>,
    t: TrackedImage,
    series: Series,
)
    requires
        images_named(known),
        outdated(known, listed_images(images)).contains(t),
        forall|u: TrackedImage|
            values(synced(known, listed_images(images))).contains(u) ==> (#[trigger] u.labels())
                != t.labels(),
        series_of_image(t, series),
    ensures
        sample(applied(samples, image_changes(known, images)), series) is None,
{
    let listed = listed_images(images);
    let next = synced(known, listed);
    let old = outdated(known, listed);
    let w = |u: TrackedImage| u.withdrawal();
    let f = |v: Image| value_under(next, v.id@).listing_changes(v.containers, v.size);
    let gone = old.map_values(w);
    let lists = images.map_values(f);
    lemma_synced_images_named(known, images);
    let k = choose|k: int| 0 <= k < old.len() && old[k] == t;
    assert(gone[k] == t.withdrawal());
    lemma_image_withdrawal_touches(t, series);
    assert forall|i: int, j: int|
        0 <= i < gone.len() && 0 <= j < gone[i].len() implies (#[trigger] gone[i][j]).value is None by {
        assert(gone[i] == old[i].withdrawal());
    }
    lemma_flatten_withdrawn(samples, gone, series, k);
    changes_compose(samples, gone.flatten(), lists.flatten());
    assert forall|j: int| 0 <= j < lists.len() implies !touches(#[trigger] lists[j], series) by {
        let u = value_under(next, images[j].id@);
        assert(lists[j] == u.listing_changes(images[j].containers, images[j].size));
        lemma_image_touches(u, images[j].containers, images[j].size, series);
        let id = images[j].id@;
        assert(has_key(next, images[j].id@));
        let at = choose|at: int| key_at(next, id, at);
        lemma_value_at(next, at);
        assert(values(next)[at] == u);
        assert(values(next).contains(u));
        assert(u.labels() != t.labels());
    }
    lemma_flatten_untouched(applied(samples, gone.flatten()), lists, series);
}

/// A listing of images touches no samples but those of images that were tracked before or
/// are tracked after it.
pub proof fn image_listings_touch_images_only(
    samples: Samples,
    known: Seq<(Seq<char>, TrackedImage)>,
    images: Seq<Image>,
    series: Series,
)
    requires
        images_named(known),
        forall|t: TrackedImage|
            outdated(known, listed_images(images)).contains(t) || values(
                synced(known, listed_images(images)),
            ).contains(t) ==> !#[trigger] series_of_image(t, series),
    ensures
        sample(applied(samples, image_changes(known, images)), series) == sample(samples, series),
{
    let listed = listed_images(images);
    let next = synced(known, listed);
    let old = outdated(known, listed);
    let w = |u: TrackedImage| u.withdrawal();
    let f = |v: Image| value_under(next, v.id@).listing_changes(v.containers, v.size);
    let gone = old.map_values(w);
    let lists = images.map_values(f);
    lemma_synced_images_named(known, images);
    assert forall|j: int| 0 <= j < gone.len() implies !touches(#[trigger] gone[j], series) by {
        assert(old.contains(old[j]));
        assert(!series_of_image(old[j], series));
        assert(gone[j] == old[j].withdrawal());
        lemma_image_withdrawal_touches(old[j], series);
    }
    assert forall|j: int| 0 <= j < lists.len() implies !touches(#[trigger] lists[j], series) by {
        let id = images[j].id@;
        let u = value_under(next, id);
        assert(has_key(next, images[j].id@));
        let at = choose|at: int| key_at(next, id, at);
        lemma_value_at(next, at);
        assert(values(next)[at] == u);
        assert(!series_of_image(u, series));
        assert(lists[j] == u.listing_changes(images[j].containers, images[j].size));
        lemma_image_touches(u, images[j].containers, images[j].size, series);
    }
    lemma_flatten_untouched(samples, gone, series);
    changes_compose(samples, gone.flatten(), lists.flatten());
    lemma_flatten_untouched(applied(samples, gone.flatten()), lists, series);
}

} // verus!
