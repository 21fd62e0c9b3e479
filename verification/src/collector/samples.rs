//! Samples of gauges, and the changes that are made to them.

use super::metrics::Gauge;
use vstd::prelude::*;

verus! {

/// What a sample says.
#[derive(Clone, Copy, Debug, PartialEq, Eq, Structural)]
pub enum GaugeValue {
    /// A whole number.
    Whole(u64),
    /// One half.
    Half,
}

/// A change to the samples that are published.
pub enum GaugeChange {
    /// The sample of `gauge` under `labels` says `value` from now on.
    Publish { gauge: Gauge, labels: Vec<String>, value: GaugeValue },
    /// There is no sample of `gauge` under `labels` any more.
    Withdraw { gauge: Gauge, labels: Vec<String> },
}

/// What tells samples apart: the gauge, and the values of its labels.
pub type Series = (Gauge, Seq<Seq<char>>);

/// The samples that are published.
pub type Samples = Map<Series, GaugeValue>;

/// A change to one sample: what it says from now on, or that it is gone.
pub struct Change {
    pub series: Series,
    pub value: Option<GaugeValue>,
}

/// The texts that strings hold.
pub open spec fn texts(s: Seq<String>) -> Seq<Seq<char>> {
    s.map_values(|t: String| t@)
}

/// The sample of `gauge` under `labels` says `value`.
pub open spec fn publishes(gauge: Gauge, labels: Seq<Seq<char>>, value: GaugeValue) -> Change {
    Change { series: (gauge, labels), value: Some(value) }
}

/// The sample of `gauge` under `labels` is gone.
pub open spec fn withdraws(gauge: Gauge, labels: Seq<Seq<char>>) -> Change {
    Change { series: (gauge, labels), value: None }
}

impl View for GaugeChange {
    type V = Change;

    open spec fn view(&self) -> Change {
        match *self {
            GaugeChange::Publish { gauge, labels, value } => publishes(gauge, texts(labels@), value),
            GaugeChange::Withdraw { gauge, labels } => withdraws(gauge, texts(labels@)),
        }
    }
}

/// The changes that a list holds.
pub open spec fn changes(s: Seq<GaugeChange>) -> Seq<Change> {
    s.map_values(|c: GaugeChange| c@)
}

/// The samples after one change.
pub open spec fn changed(samples: Samples, change: Change) -> Samples {
    match change.value {
        Some(value) => samples.insert(change.series, value),
        None => samples.remove(change.series),
    }
}

/// The samples after a list of changes, made in order.
pub open spec fn applied(samples: Samples, list: Seq<Change>) -> Samples
    decreases list.len(),
{
    if list.len() == 0 {
        samples
    } else {
        changed(applied(samples, list.drop_last()), list.last())
    }
}

/// Some change in the list is one to `series`.
pub open spec fn touches(list: Seq<Change>, series: Series) -> bool {
    exists|i: int| 0 <= i < list.len() && (#[trigger] list[i]).series == series
}

/// The change at `i` is the last one to `series`.
pub open spec fn last_at(list: Seq<Change>, series: Series, i: int) -> bool {
    &&& 0 <= i < list.len()
    &&& list[i].series == series
    &&& forall|j: int| i < j < list.len() ==> (#[trigger] list[j]).series != series
}

/// What the samples say of one series.
pub open spec fn sample(samples: Samples, series: Series) -> Option<GaugeValue> {
    if samples.contains_key(series) {
        Some(samples[series])
    } else {
        None
    }
}

/// A list of changes leaves alone what it does not touch.
pub proof fn untouched_samples_stay(samples: Samples, list: Seq<Change>, series: Series)
    requires
        !touches(list, series),
    ensures
        sample(applied(samples, list), series) == sample(samples, series),
    decreases list.len(),
{
    if list.len() > 0 {
        assert(list[list.len() - 1].series != series);
        assert forall|i: int| 0 <= i < list.drop_last().len() implies (
        #[trigger] list.drop_last()[i]).series
            != series by {
            assert(list[i].series != series);
        }
        untouched_samples_stay(samples, list.drop_last(), series);
    }
}

/// After a list of changes a sample says what the last change to it said.
pub proof fn last_change_wins(samples: Samples, list: Seq<Change>, series: Series, i: int)
    requires
        last_at(list, series, i),
    ensures
        sample(applied(samples, list), series) == list[i].value,
    decreases list.len(),
{
    if i < list.len() - 1 {
        assert(list[list.len() - 1].series != series);
        assert(last_at(list.drop_last(), series, i)) by {
            assert forall|j: int| i < j < list.drop_last().len() implies (
            #[trigger] list.drop_last()[j]).series
                != series by {
                assert(list[j].series != series);
            }
        }
        last_change_wins(samples, list.drop_last(), series, i);
    }
}

/// Two lists of changes, one after the other, do what their concatenation does.
pub proof fn changes_compose(samples: Samples, a: Seq<Change>, b: Seq<Change>)
    ensures
        applied(samples, a + b) == applied(applied(samples, a), b),
    decreases b.len(),
{
    if b.len() == 0 {
        assert(a + b =~= a);
    } else {
        assert((a + b).drop_last() =~= a + b.drop_last());
        changes_compose(samples, a, b.drop_last());
    }
}

/// Lists of changes to different series can be made in either order.
pub proof fn changes_to_different_series_commute(
    samples: Samples,
    a: Seq<Change>,
    b: Seq<Change>,
)
    requires
        forall|series: Series| !(touches(a, series) && touches(b, series)),
    ensures
        applied(samples, a + b) == applied(samples, b + a),
{
    changes_compose(samples, a, b);
    changes_compose(samples, b, a);
    let ab = applied(samples, a + b);
    let ba = applied(samples, b + a);
    assert forall|series: Series| sample(ab, series) == sample(ba, series) by {
        if touches(a, series) {
            untouched_samples_stay(applied(samples, a), b, series);
            touched_samples_forget(samples, applied(samples, b), a, series);
        } else {
            untouched_samples_stay(applied(samples, b), a, series);
            if touches(b, series) {
                touched_samples_forget(samples, applied(samples, a), b, series);
            } else {
                untouched_samples_stay(samples, a, series);
                untouched_samples_stay(samples, b, series);
                untouched_samples_stay(applied(samples, a), b, series);
            }
        }
    }
    assert forall|series: Series| ab.contains_key(series) == ba.contains_key(series) by {
        assert(sample(ab, series) == sample(ba, series));
    }
    assert forall|series: Series| ab.contains_key(series) implies ab[series] == ba[series] by {
        assert(sample(ab, series) == sample(ba, series));
    }
    assert(ab =~= ba);
}

/// What a list of changes makes of a sample that it touches does not depend on what was
/// published before.
pub proof fn touched_samples_forget(
    samples: Samples,
    others: Samples,
    list: Seq<Change>,
    series: Series,
)
    requires
        touches(list, series),
    ensures
        sample(applied(samples, list), series) == sample(applied(others, list), series),
    decreases list.len(),
{
    let n = list.len() - 1;
    if list[n].series == series {
        assert(last_at(list, series, n));
        last_change_wins(samples, list, series, n);
        last_change_wins(others, list, series, n);
    } else {
        let i = choose|i: int| 0 <= i < list.len() && (#[trigger] list[i]).series == series;
        assert(list.drop_last()[i].series == series);
        touched_samples_forget(samples, others, list.drop_last(), series);
    }
}

/// Lists of changes, one after the other, leave alone what none of them touches.
pub proof fn lemma_flatten_untouched(samples: Samples, lists: Seq<Seq<Change>>, series: Series)
    requires
        forall|i: int| 0 <= i < lists.len() ==> !touches(#[trigger] lists[i], series),
    ensures
        sample(applied(samples, lists.flatten()), series) == sample(samples, series),
    decreases lists.len(),
{
    if lists.len() == 0 {
        assert(lists.flatten() =~= Seq::empty());
    } else {
        let front = lists.drop_last();
        let last = lists.last();
        assert(lists =~= front.push(last));
        front.lemma_flatten_push(last);
        assert forall|i: int| 0 <= i < front.len() implies !touches(#[trigger] front[i], series) by {
            assert(!touches(lists[i], series));
        }
        lemma_flatten_untouched(samples, front, series);
        changes_compose(samples, front.flatten(), last);
        assert(!touches(lists[lists.len() - 1], series));
        untouched_samples_stay(applied(samples, front.flatten()), last, series);
    }
}

/// Of lists of changes, one after the other, the last one that touches a sample decides what
/// it says.
pub proof fn lemma_flatten_last(
    samples: Samples,
    lists: Seq<Seq<Change>>,
    series: Series,
    i: int,
)
    requires
        0 <= i < lists.len(),
        touches(lists[i], series),
        forall|j: int| i < j < lists.len() ==> !touches(#[trigger] lists[j], series),
    ensures
        sample(applied(samples, lists.flatten()), series) == sample(
            applied(Map::empty(), lists[i]),
            series,
        ),
    decreases lists.len(),
{
    let front = lists.drop_last();
    let last = lists.last();
    assert(lists =~= front.push(last));
    front.lemma_flatten_push(last);
    changes_compose(samples, front.flatten(), last);
    if i == lists.len() - 1 {
        touched_samples_forget(applied(samples, front.flatten()), Map::empty(), last, series);
    } else {
        assert(front[i] == lists[i]);
        assert forall|j: int| i < j < front.len() implies !touches(#[trigger] front[j], series) by {
            assert(!touches(lists[j], series));
        }
        lemma_flatten_last(samples, front, series, i);
        assert(!touches(lists[lists.len() - 1], series));
        untouched_samples_stay(applied(samples, front.flatten()), last, series);
    }
}

/// Where all changes take samples away, a sample that one of them touches is gone.
pub proof fn lemma_withdrawn(samples: Samples, list: Seq<Change>, series: Series)
    requires
        touches(list, series),
        forall|i: int| 0 <= i < list.len() ==> (#[trigger] list[i]).value is None,
    ensures
        sample(applied(samples, list), series) is None,
    decreases list.len(),
{
    let n = list.len() - 1;
    assert(list[n].value is None);
    if list[n].series != series {
        let i = choose|i: int| 0 <= i < list.len() && (#[trigger] list[i]).series == series;
        assert(list.drop_last()[i].series == series);
        assert forall|i: int| 0 <= i < list.drop_last().len() implies (
        #[trigger] list.drop_last()[i]).value is None by {
            assert(list[i].value is None);
        }
        lemma_withdrawn(samples, list.drop_last(), series);
    }
}

/// Of lists of changes that all take samples away, one after the other, none leaves a sample
/// that it touches.
pub proof fn lemma_flatten_withdrawn(
    samples: Samples,
    lists: Seq<Seq<Change>>,
    series: Series,
    k: int,
)
    requires
        0 <= k < lists.len(),
        touches(lists[k], series),
        forall|i: int, j: int|
            0 <= i < lists.len() && 0 <= j < lists[i].len() ==> (#[trigger] lists[i][j]).value is None,
    ensures
        sample(applied(samples, lists.flatten()), series) is None,
    decreases lists.len(),
{
    let front = lists.drop_last();
    let last = lists.last();
    assert(lists =~= front.push(last));
    front.lemma_flatten_push(last);
    changes_compose(samples, front.flatten(), last);
    if touches(last, series) {
        assert forall|j: int| 0 <= j < last.len() implies (#[trigger] last[j]).value is None by {
            assert(lists[lists.len() - 1][j].value is None);
        }
        lemma_withdrawn(applied(samples, front.flatten()), last, series);
    } else {
        assert(front[k] == lists[k]);
        assert forall|i: int, j: int|
            0 <= i < front.len() && 0 <= j < front[i].len() implies (#[trigger] front[i][j]).value is None by {
            assert(lists[i][j].value is None);
        }
        lemma_flatten_withdrawn(samples, front, series, k);
        untouched_samples_stay(applied(samples, front.flatten()), last, series);
    }
}

/// One change makes its sample say what it says, or go, and leaves all others alone.
pub proof fn one_change_is_made_to_one_sample(samples: Samples, change: Change, series: Series)
    ensures
        sample(applied(samples, seq![change]), change.series) == change.value,
        series != change.series ==> sample(applied(samples, seq![change]), series) == sample(
            samples,
            series,
        ),
        applied(samples, Seq::empty()) == samples,
{
    let list = seq![change];
    assert(last_at(list, change.series, 0));
    last_change_wins(samples, list, change.series, 0);
    if series != change.series {
        untouched_samples_stay(samples, list, series);
    }
}

/// A change is one to the sample of its own gauge under all of its labels, and a list of
/// changes holds each of them, in order.
pub proof fn changes_name_their_samples(
    gauge: Gauge,
    labels: Vec<String>,
    value: GaugeValue,
    list: Seq<GaugeChange>,
    i: int,
)
    ensures
        ({
            let publish = GaugeChange::Publish { gauge, labels, value }@;
            let withdraw = GaugeChange::Withdraw { gauge, labels }@;
            &&& publish.series.0 == gauge
            &&& publish.series.1.len() == labels@.len()
            &&& 0 <= i < labels@.len() ==> publish.series.1[i] == labels@[i]@
            &&& publish.value == Some(value)
            &&& withdraw.series == publish.series
            &&& withdraw.value is None
        }),
        changes(list).len() == list.len(),
        0 <= i < list.len() ==> changes(list)[i] == list[i]@,
{
}

} // verus!
