//! What inspecting and measuring a container publishes.

use super::containers::{container_updates_touch_own_samples_only, series_of_container};
use crate::collector::metrics::Gauge;
use crate::collector::samples::{
    applied, changes, last_at, last_change_wins, sample, touches, untouched_samples_stay, GaugeValue,
    Samples, Series,
};
use crate::collector::trackers::{
    container_step, inactive_file, inspect_changes, measurable, moved, received, rfc3339_seconds,
    sent, stats_changes, total, ContainerAction, ContainerEvent, ContainerStep, TrackedContainer,
};
use crate::docker::{
    BlkioServiceBytesStat, ContainerInspect, ContainerStats, DockerError, MemoryStats, Network,
};
use crate::string_map::{distinct_keys, has_key, key_at, lemma_value_at};
use crate::text::{case_is_ignored_of_ascii_letters_only, same_ignoring_ascii_case};
use vstd::prelude::*;

verus! {

/// The number that a step publishes for a gauge of the container, or -1 without one.
pub open spec fn number(t: TrackedContainer, step: ContainerStep, gauge: Gauge) -> int {
    match sample(applied(Map::empty(), changes(step.changes@)), (gauge, t.labels())) {
        Some(GaugeValue::Whole(n)) => n as int,
        _ => -1,
    }
}

/// The step is what measuring the container as `stats` leads to.
pub open spec fn measures(t: TrackedContainer, stats: ContainerStats, step: ContainerStep) -> bool {
    measurable(stats) && container_step(t.labels(), ContainerEvent::Measured(Ok(stats)), step)
}

/// `op` is the word that is written `small` in small letters and `capital` in capitals, with
/// each letter in either form.
pub open spec fn spells(op: Seq<char>, small: Seq<char>, capital: Seq<char>) -> bool {
    op.len() == small.len() && forall|i: int|
        0 <= i < op.len() ==> (#[trigger] op[i]) == small[i] || op[i] == capital[i]
}

/// The operation reads.
pub open spec fn reads(op: Seq<char>) -> bool {
    spells(op, seq!['r', 'e', 'a', 'd'], seq!['R', 'E', 'A', 'D'])
}

/// The operation writes.
pub open spec fn writes(op: Seq<char>) -> bool {
    spells(op, seq!['w', 'r', 'i', 't', 'e'], seq!['W', 'R', 'I', 'T', 'E'])
}

proof fn lemma_spells(op: Seq<char>)
    ensures
        same_ignoring_ascii_case(op, "read"@) == reads(op),
        same_ignoring_ascii_case(op, "write"@) == writes(op),
{
    reveal_strlit("read");
    reveal_strlit("write");
    let read = "read"@;
    let write = "write"@;
    assert(read =~= seq!['r', 'e', 'a', 'd']);
    assert(write =~= seq!['w', 'r', 'i', 't', 'e']);
    case_is_ignored_of_ascii_letters_only(op, read);
    case_is_ignored_of_ascii_letters_only(op, write);
    let cr = seq!['R', 'E', 'A', 'D'];
    let cw = seq!['W', 'R', 'I', 'T', 'E'];
    assert forall|i: int| 0 <= i < 4 implies 'a' <= #[trigger] read[i] <= 'z' && read[i] as int
        == cr[i] as int + 32 && 'A' <= cr[i] <= 'Z' by {}
    assert forall|i: int| 0 <= i < 5 implies 'a' <= #[trigger] write[i] <= 'z' && write[i] as int
        == cw[i] as int + 32 && 'A' <= cw[i] <= 'Z' by {}
}

proof fn lemma_measured(t: TrackedContainer, stats: ContainerStats, step: ContainerStep)
    requires
        measures(t, stats, step),
    ensures
        number(t, step, Gauge::ContainerCpuUsage) == stats.cpu_stats.cpu_usage.total_usage,
        number(t, step, Gauge::ContainerCpuCapacity) == stats.cpu_stats.system_cpu_usage,
        number(t, step, Gauge::ContainerMemoryUsage) == stats.memory_stats.usage - inactive_file(
            stats.memory_stats,
        ),
        number(t, step, Gauge::ContainerBytesIn) == total(received(stats.networks@)),
        number(t, step, Gauge::ContainerBytesOut) == total(sent(stats.networks@)),
        number(t, step, Gauge::ContainerBytesRead) == total(
            moved(stats.blkio_stats.io_service_bytes_recursive@, "read"@),
        ),
        number(t, step, Gauge::ContainerBytesWritten) == total(
            moved(stats.blkio_stats.io_service_bytes_recursive@, "write"@),
        ),
{
    let list = stats_changes(t.labels(), stats);
    let none: Samples = Map::empty();
    lemma_totals(stats);
    assert(last_at(list, (Gauge::ContainerCpuUsage, t.labels()), 0));
    last_change_wins(none, list, (Gauge::ContainerCpuUsage, t.labels()), 0);
    assert(last_at(list, (Gauge::ContainerCpuCapacity, t.labels()), 1));
    last_change_wins(none, list, (Gauge::ContainerCpuCapacity, t.labels()), 1);
    assert(last_at(list, (Gauge::ContainerMemoryUsage, t.labels()), 2));
    last_change_wins(none, list, (Gauge::ContainerMemoryUsage, t.labels()), 2);
    assert(last_at(list, (Gauge::ContainerBytesIn, t.labels()), 3));
    last_change_wins(none, list, (Gauge::ContainerBytesIn, t.labels()), 3);
    assert(last_at(list, (Gauge::ContainerBytesOut, t.labels()), 4));
    last_change_wins(none, list, (Gauge::ContainerBytesOut, t.labels()), 4);
    assert(last_at(list, (Gauge::ContainerBytesRead, t.labels()), 5));
    last_change_wins(none, list, (Gauge::ContainerBytesRead, t.labels()), 5);
    assert(last_at(list, (Gauge::ContainerBytesWritten, t.labels()), 6));
    last_change_wins(none, list, (Gauge::ContainerBytesWritten, t.labels()), 6);
}

proof fn lemma_total_not_negative(s: Seq<int>)
    requires
        forall|i: int| 0 <= i < s.len() ==> (#[trigger] s[i]) >= 0,
    ensures
        total(s) >= 0,
    decreases s.len(),
{
    if s.len() > 0 {
        assert forall|i: int| 0 <= i < s.drop_last().len() implies (
        #[trigger] s.drop_last()[i]) >= 0 by {
            assert(s[i] >= 0);
        }
        assert(s[s.len() - 1] >= 0);
        lemma_total_not_negative(s.drop_last());
    }
}

proof fn lemma_totals(stats: ContainerStats)
    ensures
        total(received(stats.networks@)) >= 0,
        total(sent(stats.networks@)) >= 0,
        total(moved(stats.blkio_stats.io_service_bytes_recursive@, "read"@)) >= 0,
        total(moved(stats.blkio_stats.io_service_bytes_recursive@, "write"@)) >= 0,
{
    lemma_total_not_negative(received(stats.networks@));
    lemma_total_not_negative(sent(stats.networks@));
    lemma_total_not_negative(moved(stats.blkio_stats.io_service_bytes_recursive@, "read"@));
    lemma_total_not_negative(moved(stats.blkio_stats.io_service_bytes_recursive@, "write"@));
}

proof fn lemma_total_push(s: Seq<int>, n: int)
    ensures
        total(s.push(n)) == total(s) + n,
{
    assert(s.push(n).drop_last() =~= s);
}

/// One more entry of disk operations raises the bytes read by its value if it reads, the bytes
/// written if it writes, and neither if it does something else, whatever else is measured.
pub proof fn disk_bytes_are_those_of_reads_and_writes(
    t: TrackedContainer,
    stats: ContainerStats,
    step: ContainerStep,
    entry: BlkioServiceBytesStat,
    more: ContainerStats,
    more_step: ContainerStep,
)
    requires
        measures(t, stats, step),
        measures(t, more, more_step),
        more.blkio_stats.io_service_bytes_recursive@
            == stats.blkio_stats.io_service_bytes_recursive@.push(entry),
    ensures
        number(t, step, Gauge::ContainerBytesRead) >= 0,
        number(t, step, Gauge::ContainerBytesWritten) >= 0,
        number(t, more_step, Gauge::ContainerBytesRead) == number(
            t,
            step,
            Gauge::ContainerBytesRead,
        ) + (if reads(entry.op@) {
            entry.value as int
        } else {
            0
        }),
        number(t, more_step, Gauge::ContainerBytesWritten) == number(
            t,
            step,
            Gauge::ContainerBytesWritten,
        ) + (if writes(entry.op@) {
            entry.value as int
        } else {
            0
        }),
{
    lemma_measured(t, stats, step);
    lemma_measured(t, more, more_step);
    lemma_totals(stats);
    lemma_moved_push(stats.blkio_stats.io_service_bytes_recursive@, entry);
}

proof fn lemma_moved_push(entries: Seq<BlkioServiceBytesStat>, entry: BlkioServiceBytesStat)
    ensures
        total(moved(entries.push(entry), "read"@)) == total(moved(entries, "read"@)) + (if reads(
            entry.op@,
        ) {
            entry.value as int
        } else {
            0
        }),
        total(moved(entries.push(entry), "write"@)) == total(moved(entries, "write"@)) + (
        if writes(entry.op@) {
            entry.value as int
        } else {
            0
        }),
{
    lemma_spells(entry.op@);
    let read: int = if reads(entry.op@) {
        entry.value as int
    } else {
        0
    };
    let written: int = if writes(entry.op@) {
        entry.value as int
    } else {
        0
    };
    assert(moved(entries.push(entry), "read"@) =~= moved(entries, "read"@).push(read));
    assert(moved(entries.push(entry), "write"@) =~= moved(entries, "write"@).push(written));
    lemma_total_push(moved(entries, "read"@), read);
    lemma_total_push(moved(entries, "write"@), written);
}

/// Without disk operations nothing was read or written.
pub proof fn no_disk_operations_move_nothing(
    t: TrackedContainer,
    stats: ContainerStats,
    step: ContainerStep,
)
    requires
        measures(t, stats, step),
        stats.blkio_stats.io_service_bytes_recursive@.len() == 0,
    ensures
        number(t, step, Gauge::ContainerBytesRead) == 0,
        number(t, step, Gauge::ContainerBytesWritten) == 0,
{
    lemma_measured(t, stats, step);
}

/// One more network interface raises the bytes received and sent by its own, whatever else is
/// measured.
pub proof fn network_bytes_are_those_of_all_interfaces(
    t: TrackedContainer,
    stats: ContainerStats,
    step: ContainerStep,
    interface: (Seq<char>, Network),
    more: ContainerStats,
    more_step: ContainerStep,
)
    requires
        measures(t, stats, step),
        measures(t, more, more_step),
        more.networks@ == stats.networks@.push(interface),
    ensures
        number(t, step, Gauge::ContainerBytesIn) >= 0,
        number(t, step, Gauge::ContainerBytesOut) >= 0,
        number(t, more_step, Gauge::ContainerBytesIn) == number(t, step, Gauge::ContainerBytesIn)
            + interface.1.rx_bytes,
        number(t, more_step, Gauge::ContainerBytesOut) == number(t, step, Gauge::ContainerBytesOut)
            + interface.1.tx_bytes,
{
    lemma_measured(t, stats, step);
    lemma_measured(t, more, more_step);
    lemma_totals(stats);
    lemma_network_push(stats.networks@, interface);
}

proof fn lemma_network_push(
    networks: Seq<(Seq<char>, Network)>,
    interface: (Seq<char>, Network),
)
    ensures
        total(received(networks.push(interface))) == total(received(networks))
            + interface.1.rx_bytes,
        total(sent(networks.push(interface))) == total(sent(networks)) + interface.1.tx_bytes,
{
    let n = interface.1;
    assert(received(networks.push(interface)) =~= received(networks).push(n.rx_bytes as int));
    assert(sent(networks.push(interface)) =~= sent(networks).push(n.tx_bytes as int));
    lemma_total_push(received(networks), n.rx_bytes as int);
    lemma_total_push(sent(networks), n.tx_bytes as int);
}

/// Without network interfaces nothing was received or sent.
pub proof fn no_interfaces_move_nothing(
    t: TrackedContainer,
    stats: ContainerStats,
    step: ContainerStep,
)
    requires
        measures(t, stats, step),
        stats.networks@.len() == 0,
    ensures
        number(t, step, Gauge::ContainerBytesIn) == 0,
        number(t, step, Gauge::ContainerBytesOut) == 0,
{
    lemma_measured(t, stats, step);
}

/// Entry `i` of the counters of memory is the one that `key` names.
pub open spec fn counts(memory: MemoryStats, key: Seq<char>, i: int) -> bool {
    0 <= i < memory.stats@.len() && memory.stats@[i].0 == key
}

/// The bytes that come off the memory in use are those of `total_inactive_file`; without such
/// a counter those of `inactive_file`; without either, none.
pub open spec fn comes_off(memory: MemoryStats, bytes: int) -> bool {
    ||| exists|i: int|
        #[trigger] counts(memory, "total_inactive_file"@, i) && memory.stats@[i].1 == bytes
    ||| (forall|j: int| !#[trigger] counts(memory, "total_inactive_file"@, j)) && exists|i: int|
        #[trigger] counts(memory, "inactive_file"@, i) && memory.stats@[i].1 == bytes
    ||| (forall|j: int|
        !#[trigger] counts(memory, "total_inactive_file"@, j)) && (forall|j: int|
        !#[trigger] counts(memory, "inactive_file"@, j)) && bytes == 0
}

proof fn lemma_comes_off(memory: MemoryStats, bytes: int)
    requires
        distinct_keys(memory.stats@),
        comes_off(memory, bytes),
    ensures
        inactive_file(memory) == bytes,
{
    let s = memory.stats@;
    lemma_counted(memory, "total_inactive_file"@);
    lemma_counted(memory, "inactive_file"@);
    if exists|i: int|
        #[trigger] counts(memory, "total_inactive_file"@, i) && memory.stats@[i].1 == bytes {
        let i = choose|i: int|
            #[trigger] counts(memory, "total_inactive_file"@, i) && memory.stats@[i].1 == bytes;
        lemma_value_at(s, i);
    } else if exists|i: int|
        #[trigger] counts(memory, "inactive_file"@, i) && memory.stats@[i].1 == bytes {
        let i = choose|i: int|
            #[trigger] counts(memory, "inactive_file"@, i) && memory.stats@[i].1 == bytes;
        lemma_value_at(s, i);
    }
}

proof fn lemma_counted(memory: MemoryStats, key: Seq<char>)
    ensures
        has_key(memory.stats@, key) == exists|i: int| counts(memory, key, i),
{
    if has_key(memory.stats@, key) {
        let i = choose|i: int| key_at(memory.stats@, key, i);
        assert(counts(memory, key, i));
    }
    if exists|i: int| counts(memory, key, i) {
        let i = choose|i: int| counts(memory, key, i);
        assert(key_at(memory.stats@, key, i));
    }
}

/// The memory that is shown is the memory in use without inactive file contents, whatever
/// other counters there are.
pub proof fn memory_is_shown_without_inactive_file_contents(
    t: TrackedContainer,
    stats: ContainerStats,
    step: ContainerStep,
    bytes: int,
)
    requires
        measures(t, stats, step),
        distinct_keys(stats.memory_stats.stats@),
        comes_off(stats.memory_stats, bytes),
    ensures
        number(t, step, Gauge::ContainerMemoryUsage) == stats.memory_stats.usage - bytes,
{
    lemma_measured(t, stats, step);
    lemma_comes_off(stats.memory_stats, bytes);
}

/// Processor time is shown as it is measured.
pub proof fn processor_time_is_shown_as_measured(
    t: TrackedContainer,
    stats: ContainerStats,
    step: ContainerStep,
)
    requires
        measures(t, stats, step),
    ensures
        number(t, step, Gauge::ContainerCpuUsage) == stats.cpu_stats.cpu_usage.total_usage,
        number(t, step, Gauge::ContainerCpuCapacity) == stats.cpu_stats.system_cpu_usage,
{
    lemma_measured(t, stats, step);
}

/// Without traffic, the numbers fit exactly where no more memory comes off than is in use.
pub proof fn numbers_fit_without_traffic(stats: ContainerStats, bytes: int)
    requires
        distinct_keys(stats.memory_stats.stats@),
        comes_off(stats.memory_stats, bytes),
        stats.networks@.len() == 0,
        stats.blkio_stats.io_service_bytes_recursive@.len() == 0,
    ensures
        measurable(stats) <==> bytes <= stats.memory_stats.usage,
{
    lemma_comes_off(stats.memory_stats, bytes);
}

/// With one more entry of disk operations the numbers fit exactly where they did before and
/// the raised numbers do.
pub proof fn numbers_fit_with_one_more_disk_operation(
    t: TrackedContainer,
    stats: ContainerStats,
    step: ContainerStep,
    entry: BlkioServiceBytesStat,
    more: ContainerStats,
)
    requires
        more.memory_stats == stats.memory_stats,
        more.networks == stats.networks,
        more.blkio_stats.io_service_bytes_recursive@
            == stats.blkio_stats.io_service_bytes_recursive@.push(entry),
    ensures
        measurable(more) ==> measurable(stats),
        measures(t, stats, step) ==> (measurable(more) <==> (reads(entry.op@) ==> number(
            t,
            step,
            Gauge::ContainerBytesRead,
        ) + entry.value <= u64::MAX) && (writes(entry.op@) ==> number(
            t,
            step,
            Gauge::ContainerBytesWritten,
        ) + entry.value <= u64::MAX)),
{
    lemma_moved_push(stats.blkio_stats.io_service_bytes_recursive@, entry);
    if measures(t, stats, step) {
        lemma_measured(t, stats, step);
    }
}

/// With one more network interface the numbers fit exactly where they did before and the
/// raised numbers do.
pub proof fn numbers_fit_with_one_more_interface(
    t: TrackedContainer,
    stats: ContainerStats,
    step: ContainerStep,
    interface: (Seq<char>, Network),
    more: ContainerStats,
)
    requires
        more.memory_stats == stats.memory_stats,
        more.blkio_stats == stats.blkio_stats,
        more.networks@ == stats.networks@.push(interface),
    ensures
        measurable(more) ==> measurable(stats),
        measures(t, stats, step) ==> (measurable(more) <==> number(t, step, Gauge::ContainerBytesIn)
            + interface.1.rx_bytes <= u64::MAX && number(t, step, Gauge::ContainerBytesOut)
            + interface.1.tx_bytes <= u64::MAX),
{
    lemma_network_push(stats.networks@, interface);
    if measures(t, stats, step) {
        lemma_measured(t, stats, step);
    }
}

/// Measuring a container ends its update, shows what was measured and leaves all else alone.
pub proof fn measuring_ends_the_update(
    samples: Samples,
    t: TrackedContainer,
    stats: ContainerStats,
    step: ContainerStep,
    series: Series,
)
    requires
        measures(t, stats, step),
    ensures
        step.action matches ContainerAction::Finish(Ok(())),
        series.1 == t.labels() && (series.0 == Gauge::ContainerCpuUsage || series.0
            == Gauge::ContainerCpuCapacity || series.0 == Gauge::ContainerMemoryUsage || series.0
            == Gauge::ContainerBytesIn || series.0 == Gauge::ContainerBytesOut || series.0
            == Gauge::ContainerBytesRead || series.0 == Gauge::ContainerBytesWritten) ==> sample(
            applied(samples, changes(step.changes@)),
            series,
        ) == Some(GaugeValue::Whole(number(t, step, series.0) as u64)),
        series.1 != t.labels() || series.0 == Gauge::ContainerRunningState || series.0
            == Gauge::ContainerRestartCount || series.0 == Gauge::ContainerStartTime
            || !series.0.of_container() ==> sample(
            applied(samples, changes(step.changes@)),
            series,
        ) == sample(samples, series),
{
    let list = stats_changes(t.labels(), stats);
    lemma_measured(t, stats, step);
    lemma_totals(stats);
    assert(step.action matches ContainerAction::Finish(r) && r is Ok);
    if series.1 == t.labels() {
        let i: int = match series.0 {
            Gauge::ContainerCpuUsage => 0,
            Gauge::ContainerCpuCapacity => 1,
            Gauge::ContainerMemoryUsage => 2,
            Gauge::ContainerBytesIn => 3,
            Gauge::ContainerBytesOut => 4,
            Gauge::ContainerBytesRead => 5,
            Gauge::ContainerBytesWritten => 6,
            _ => -1,
        };
        if i >= 0 {
            assert(last_at(list, series, i));
            last_change_wins(samples, list, series, i);
        } else {
            untouched_samples_stay(samples, list, series);
        }
    } else {
        untouched_samples_stay(samples, list, series);
    }
}

/// Inspecting a container shows whether it runs, restarts or has stopped, how often it was
/// restarted, and since when it runs where that is a time after 1970. It shows no memory in
/// use for one that does not run. All else stays. A container that runs is measured next; the
/// update of any other has succeeded.
pub proof fn inspecting_shows_the_state(
    samples: Samples,
    t: TrackedContainer,
    inspect: ContainerInspect,
    step: ContainerStep,
    series: Series,
)
    requires
        container_step(t.labels(), ContainerEvent::Inspected(Ok(inspect)), step),
    ensures
        ({
            let after = applied(samples, changes(step.changes@));
            let started = rfc3339_seconds(inspect.state.started_at@);
            &&& sample(after, (Gauge::ContainerRunningState, t.labels())) == Some(
                if inspect.state.running {
                    GaugeValue::Whole(1)
                } else if inspect.state.restarting {
                    GaugeValue::Half
                } else {
                    GaugeValue::Whole(0)
                },
            )
            &&& sample(after, (Gauge::ContainerRestartCount, t.labels())) == Some(
                GaugeValue::Whole(inspect.restart_count as u64),
            )
            &&& started is Some && started->0 > 0 ==> sample(
                after,
                (Gauge::ContainerStartTime, t.labels()),
            ) == Some(GaugeValue::Whole(started->0 as u64))
            &&& !inspect.state.running ==> sample(after, (Gauge::ContainerMemoryUsage, t.labels()))
                == Some(GaugeValue::Whole(0))
            &&& series != (Gauge::ContainerRunningState, t.labels()) && series != (
                Gauge::ContainerRestartCount,
                t.labels(),
            ) && (series == (Gauge::ContainerStartTime, t.labels()) ==> started is None
                || started->0 <= 0) && (series == (Gauge::ContainerMemoryUsage, t.labels())
                ==> inspect.state.running) ==> sample(after, series) == sample(samples, series)
            &&& inspect.state.running <==> step.action is Measure
            &&& !inspect.state.running <==> (step.action matches ContainerAction::Finish(Ok(())))
        }),
{
    let started = rfc3339_seconds(inspect.state.started_at@);
    let list = inspect_changes(t.labels(), inspect, started);
    let state: Series = (Gauge::ContainerRunningState, t.labels());
    let count: Series = (Gauge::ContainerRestartCount, t.labels());
    let start: Series = (Gauge::ContainerStartTime, t.labels());
    let memory: Series = (Gauge::ContainerMemoryUsage, t.labels());
    assert(last_at(list, state, 0));
    last_change_wins(samples, list, state, 0);
    assert(last_at(list, count, 1));
    last_change_wins(samples, list, count, 1);
    if started is Some && started->0 > 0 {
        assert(last_at(list, start, 2));
        last_change_wins(samples, list, start, 2);
    }
    if !inspect.state.running {
        assert(last_at(list, memory, list.len() - 1));
        last_change_wins(samples, list, memory, list.len() - 1);
    }
    if !touches(list, series) {
        untouched_samples_stay(samples, list, series);
    }
}

/// The update of a container begins with inspecting it, and before that nothing changes.
pub proof fn updates_of_containers_begin_with_inspecting(t: TrackedContainer, step: ContainerStep)
    requires
        container_step(t.labels(), ContainerEvent::Begin, step),
    ensures
        step.action is Inspect,
        step.changes@.len() == 0,
{
    assert(changes(step.changes@).len() == 0);
}

/// The update of a container fails with the error of the first query that does, and nothing
/// changes then.
pub proof fn updates_of_containers_fail_with_their_queries(
    t: TrackedContainer,
    error: DockerError,
    event: ContainerEvent,
    step: ContainerStep,
)
    requires
        container_step(t.labels(), event, step),
        event == ContainerEvent::Inspected(Err(error)) || event == ContainerEvent::Measured(
            Err(error),
        ),
    ensures
        step.changes@.len() == 0,
        step.action matches ContainerAction::Finish(Err(e)) && e == error,
{
    assert(changes(step.changes@).len() == 0);
}

/// Whatever happens while a container is updated, nothing changes but its own samples.
pub proof fn other_samples_stay_while_a_container_is_updated(
    samples: Samples,
    t: TrackedContainer,
    event: ContainerEvent,
    step: ContainerStep,
    series: Series,
)
    requires
        container_step(t.labels(), event, step),
        series.1 != seq![t.name] || !series.0.of_container(),
    ensures
        sample(applied(samples, changes(step.changes@)), series) == sample(samples, series),
{
    if touches(changes(step.changes@), series) {
        container_updates_touch_own_samples_only(t, event, step, series);
        assert(series_of_container(t, series));
    }
    untouched_samples_stay(samples, changes(step.changes@), series);
}

} // verus!
