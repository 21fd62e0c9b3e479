//! What holds of the samples of containers.

use crate::collector::container_withdrawals;
use crate::collector::metrics::Gauge;
use crate::collector::samples::{
    applied, changes, changes_compose, changes_to_different_series_commute, last_at,
    last_change_wins, lemma_flatten_untouched, lemma_flatten_withdrawn, sample, touches,
    untouched_samples_stay, GaugeValue, Samples, Series,
};
use crate::collector::trackers::{
    container_step, display_name, has_name, inactive_file, inspect_changes, moved, nameable,
    received, rfc3339_seconds, sent, stats_changes, total, ContainerEvent, ContainerStep,
    TrackedContainer,
};
use crate::docker::{Container, ContainerInspect, ContainerStats};
use crate::text::leading_count;
use vstd::prelude::*;
use vstd::utf8::{encode_utf8, encode_utf8_decode_utf8, is_ascii_chars, is_ascii_chars_encode_utf8};

verus! {

/// The series is one of the container.
pub open spec fn series_of_container(t: TrackedContainer, series: Series) -> bool {
    series.0.of_container() && series.1 == t.labels()
}

proof fn lemma_container_withdrawal_touches(t: TrackedContainer, series: Series)
    ensures
        touches(t.withdrawal(), series) == series_of_container(t, series),
{
    let list = t.withdrawal();
    if series_of_container(t, series) {
        assert(list[series.0.place()].series == series);
    }
    if touches(list, series) {
        let i = choose|i: int| 0 <= i < list.len() && (#[trigger] list[i]).series == series;
        assert(list[i].series.0.of_container());
    }
}

/// No sample is left of a container that is tracked no more.
pub proof fn outdated_containers_are_withdrawn(
    samples: Samples,
    old: Seq<TrackedContainer>,
    t: TrackedContainer,
    series: Series,
)
    requires
        old.contains(t),
        series_of_container(t, series),
    ensures
        sample(applied(samples, container_withdrawals(old)), series) is None,
{
    let w = |u: TrackedContainer| u.withdrawal();
    let gone = old.map_values(w);
    let k = choose|k: int| 0 <= k < old.len() && old[k] == t;
    assert(gone[k] == t.withdrawal());
    lemma_container_withdrawal_touches(t, series);
    assert forall|i: int, j: int|
        0 <= i < gone.len() && 0 <= j < gone[i].len() implies (#[trigger] gone[i][j]).value is None by {
        assert(gone[i] == old[i].withdrawal());
    }
    lemma_flatten_withdrawn(samples, gone, series, k);
}

/// Withdrawing the samples of containers leaves all other samples alone.
pub proof fn container_withdrawals_touch_those_containers_only(
    samples: Samples,
    old: Seq<TrackedContainer>,
    series: Series,
)
    requires
        forall|t: TrackedContainer|
            old.contains(t) ==> !#[trigger] series_of_container(t, series),
    ensures
        sample(applied(samples, container_withdrawals(old)), series) == sample(samples, series),
{
    let w = |u: TrackedContainer| u.withdrawal();
    let gone = old.map_values(w);
    assert forall|j: int| 0 <= j < gone.len() implies !touches(#[trigger] gone[j], series) by {
        assert(old.contains(old[j]));
        assert(!series_of_container(old[j], series));
        assert(gone[j] == old[j].withdrawal());
        lemma_container_withdrawal_touches(old[j], series);
    }
    lemma_flatten_untouched(samples, gone, series);
}

/// No step of the update of a container touches samples that are not its own.
pub proof fn container_updates_touch_own_samples_only(
    t: TrackedContainer,
    event: ContainerEvent,
    step: ContainerStep,
    series: Series,
)
    requires
        container_step(t.labels(), event, step),
        touches(changes(step.changes@), series),
    ensures
        series_of_container(t, series),
{
    let list = changes(step.changes@);
    let i = choose|i: int| 0 <= i < list.len() && (#[trigger] list[i]).series == series;
    match event {
        ContainerEvent::Inspected(Ok(inspect)) => {
            let started = rfc3339_seconds(inspect.state.started_at@);
            assert(list == inspect_changes(t.labels(), inspect, started));
        },
        ContainerEvent::Measured(Ok(stats)) => {
            assert(list == stats_changes(t.labels(), stats));
        },
        _ => {},
    }
    assert(list[i].series.0.of_container() && list[i].series.1 == t.labels());
}

/// Steps of the updates of containers that are shown under different names can be made in
/// either order.
pub proof fn updates_of_containers_commute(
    samples: Samples,
    a: TrackedContainer,
    event_a: ContainerEvent,
    step_a: ContainerStep,
    b: TrackedContainer,
    event_b: ContainerEvent,
    step_b: ContainerStep,
)
    requires
        a.name != b.name,
        container_step(a.labels(), event_a, step_a),
        container_step(b.labels(), event_b, step_b),
    ensures
        applied(applied(samples, changes(step_a.changes@)), changes(step_b.changes@)) == applied(
            applied(samples, changes(step_b.changes@)),
            changes(step_a.changes@),
        ),
{
    let first = changes(step_a.changes@);
    let second = changes(step_b.changes@);
    assert forall|series: Series| !(touches(first, series) && touches(second, series)) by {
        if touches(first, series) && touches(second, series) {
            container_updates_touch_own_samples_only(a, event_a, step_a, series);
            container_updates_touch_own_samples_only(b, event_b, step_b, series);
            assert(a.labels()[0] == b.labels()[0]);
        }
    }
    changes_to_different_series_commute(samples, first, second);
    changes_compose(samples, first, second);
    changes_compose(samples, second, first);
}

/// A container that does not run is shown to use no memory, and as restarting or stopped.
/// What is measured of running containers stays as it was.
pub proof fn stopped_containers_use_no_memory(
    samples: Samples,
    labels: Seq<Seq<char>>,
    inspect: ContainerInspect,
    started: Option<i64>,
    gauge: Gauge,
)
    requires
        !inspect.state.running,
        gauge == Gauge::ContainerCpuUsage || gauge == Gauge::ContainerCpuCapacity || gauge
            == Gauge::ContainerBytesIn || gauge == Gauge::ContainerBytesOut || gauge
            == Gauge::ContainerBytesRead || gauge == Gauge::ContainerBytesWritten,
    ensures
        ({
            let after = applied(samples, inspect_changes(labels, inspect, started));
            &&& sample(after, (Gauge::ContainerMemoryUsage, labels)) == Some(GaugeValue::Whole(0))
            &&& sample(after, (Gauge::ContainerRunningState, labels)) == Some(
                if inspect.state.restarting {
                    GaugeValue::Half
                } else {
                    GaugeValue::Whole(0)
                },
            )
            &&& sample(after, (Gauge::ContainerRestartCount, labels)) == Some(
                GaugeValue::Whole(inspect.restart_count as u64),
            )
            &&& sample(after, (gauge, labels)) == sample(samples, (gauge, labels))
        }),
{
    let list = inspect_changes(labels, inspect, started);
    let n = list.len() - 1;
    assert(last_at(list, (Gauge::ContainerMemoryUsage, labels), n));
    last_change_wins(samples, list, (Gauge::ContainerMemoryUsage, labels), n);
    assert(last_at(list, (Gauge::ContainerRunningState, labels), 0));
    last_change_wins(samples, list, (Gauge::ContainerRunningState, labels), 0);
    assert(last_at(list, (Gauge::ContainerRestartCount, labels), 1));
    last_change_wins(samples, list, (Gauge::ContainerRestartCount, labels), 1);
    untouched_samples_stay(samples, list, (gauge, labels));
}

/// The start time that is shown stays as it was where there is none after 1970.
pub proof fn start_time_stays_without_a_new_one(
    samples: Samples,
    labels: Seq<Seq<char>>,
    inspect: ContainerInspect,
    started: Option<i64>,
)
    ensures
        sample(
            applied(samples, inspect_changes(labels, inspect, started)),
            (Gauge::ContainerStartTime, labels),
        ) == (if started matches Some(t) && t > 0 {
            Some(GaugeValue::Whole(started->0 as u64))
        } else {
            sample(samples, (Gauge::ContainerStartTime, labels))
        }),
{
    let list = inspect_changes(labels, inspect, started);
    let series: Series = (Gauge::ContainerStartTime, labels);
    if started is Some && started->0 > 0 {
        assert(last_at(list, series, 2));
        last_change_wins(samples, list, series, 2);
    } else {
        untouched_samples_stay(samples, list, series);
    }
}

/// After the update of a running container its samples say what inspecting and measuring it
/// showed.
pub proof fn running_containers_are_published(
    samples: Samples,
    labels: Seq<Seq<char>>,
    inspect: ContainerInspect,
    started: Option<i64>,
    stats: ContainerStats,
)
    requires
        inspect.state.running,
    ensures
        ({
            let after = applied(
                applied(samples, inspect_changes(labels, inspect, started)),
                stats_changes(labels, stats),
            );
            let blkio = stats.blkio_stats.io_service_bytes_recursive@;
            &&& sample(after, (Gauge::ContainerRunningState, labels)) == Some(GaugeValue::Whole(1))
            &&& sample(after, (Gauge::ContainerRestartCount, labels)) == Some(
                GaugeValue::Whole(inspect.restart_count as u64),
            )
            &&& sample(after, (Gauge::ContainerCpuUsage, labels)) == Some(
                GaugeValue::Whole(stats.cpu_stats.cpu_usage.total_usage),
            )
            &&& sample(after, (Gauge::ContainerCpuCapacity, labels)) == Some(
                GaugeValue::Whole(stats.cpu_stats.system_cpu_usage),
            )
            &&& sample(after, (Gauge::ContainerMemoryUsage, labels)) == Some(
                GaugeValue::Whole(
                    (stats.memory_stats.usage - inactive_file(stats.memory_stats)) as u64,
                ),
            )
            &&& sample(after, (Gauge::ContainerBytesIn, labels)) == Some(
                GaugeValue::Whole(total(received(stats.networks@)) as u64),
            )
            &&& sample(after, (Gauge::ContainerBytesOut, labels)) == Some(
                GaugeValue::Whole(total(sent(stats.networks@)) as u64),
            )
            &&& sample(after, (Gauge::ContainerBytesRead, labels)) == Some(
                GaugeValue::Whole(total(moved(blkio, "read"@)) as u64),
            )
            &&& sample(after, (Gauge::ContainerBytesWritten, labels)) == Some(
                GaugeValue::Whole(total(moved(blkio, "write"@)) as u64),
            )
        }),
{
    let first = inspect_changes(labels, inspect, started);
    let second = stats_changes(labels, stats);
    let between = applied(samples, first);
    assert(last_at(first, (Gauge::ContainerRunningState, labels), 0));
    last_change_wins(samples, first, (Gauge::ContainerRunningState, labels), 0);
    untouched_samples_stay(between, second, (Gauge::ContainerRunningState, labels));
    assert(last_at(first, (Gauge::ContainerRestartCount, labels), 1));
    last_change_wins(samples, first, (Gauge::ContainerRestartCount, labels), 1);
    untouched_samples_stay(between, second, (Gauge::ContainerRestartCount, labels));
    assert(last_at(second, (Gauge::ContainerCpuUsage, labels), 0));
    last_change_wins(between, second, (Gauge::ContainerCpuUsage, labels), 0);
    assert(last_at(second, (Gauge::ContainerCpuCapacity, labels), 1));
    last_change_wins(between, second, (Gauge::ContainerCpuCapacity, labels), 1);
    assert(last_at(second, (Gauge::ContainerMemoryUsage, labels), 2));
    last_change_wins(between, second, (Gauge::ContainerMemoryUsage, labels), 2);
    assert(last_at(second, (Gauge::ContainerBytesIn, labels), 3));
    last_change_wins(between, second, (Gauge::ContainerBytesIn, labels), 3);
    assert(last_at(second, (Gauge::ContainerBytesOut, labels), 4));
    last_change_wins(between, second, (Gauge::ContainerBytesOut, labels), 4);
    assert(last_at(second, (Gauge::ContainerBytesRead, labels), 5));
    last_change_wins(between, second, (Gauge::ContainerBytesRead, labels), 5);
    assert(last_at(second, (Gauge::ContainerBytesWritten, labels), 6));
    last_change_wins(between, second, (Gauge::ContainerBytesWritten, labels), 6);
}

/// Of a container with a name, the name that it is shown under does not begin with a slash.
pub proof fn shown_names_begin_with_no_slash(c: Container)
    requires
        has_name(c),
        display_name(c).len() > 0,
    ensures
        display_name(c)[0] != '/',
{
    lemma_slashes_gone(c.names@[0]@);
}

proof fn lemma_slashes_gone(s: Seq<char>)
    ensures
        leading_count(s, '/') <= s.len(),
        leading_count(s, '/') < s.len() ==> s[leading_count(s, '/') as int] != '/',
    decreases s.len(),
{
    if s.len() > 0 && s.first() == '/' {
        lemma_slashes_gone(s.drop_first());
    }
}

/// A container without a name is shown under the first twelve characters of its identifier,
/// where those are ASCII.
pub proof fn nameless_containers_show_their_identifier(c: Container)
    requires
        !has_name(c),
        is_ascii_chars(c.id@),
        c.id@.len() >= 12,
    ensures
        nameable(c),
        display_name(c) == c.id@.take(12),
{
    let id = c.id@;
    let head = id.take(12);
    let tail = id.skip(12);
    assert(id =~= head + tail);
    is_ascii_chars_encode_utf8(id);
    assert(is_ascii_chars(head)) by {
        assert forall|i: int| 0 <= i < head.len() implies '\0' <= #[trigger] head[i] <= '\u{7f}' by {
            assert(head[i] == id[i]);
        }
    }
    is_ascii_chars_encode_utf8(head);
    assert(encode_utf8(id).subrange(0, 12) =~= encode_utf8(head)) by {
        assert forall|i: int| 0 <= i < 12 implies encode_utf8(id)[i] == encode_utf8(head)[i] by {
            assert(id[i] == head[i]);
        }
    }
    encode_utf8_decode_utf8(head);
    vstd::utf8::encode_utf8_valid_utf8(id);
    if id.len() == 12 {
        vstd::utf8::is_char_boundary_start_end_of_seq(encode_utf8(id));
    } else {
        let b = encode_utf8(id)[12];
        assert(id[12] as u8 == b);
        assert('\0' <= id[12] <= '\u{7f}');
        vstd::utf8::is_char_boundary_iff_is_leading_byte(encode_utf8(id), 12);
    }
}

} // verus!
