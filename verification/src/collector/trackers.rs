//! What is tracked, and the samples that it gives rise to.

use super::metrics::Gauge;
use super::samples::{changes, publishes, texts, withdraws, Change, GaugeChange, GaugeValue};
use crate::docker::{
    BlkioServiceBytesStat, Container, ContainerInspect, ContainerStats, DockerError, DockerResult,
    Image, MemoryStats, Network, Volume, VolumeUsage,
};
use crate::string_map::{has_key, value_under, StringMap};
use crate::text::{
    contains, eq_ignore_ascii_case, leading_count, occurs, same_ignoring_ascii_case, trim,
    trim_start_matches, trimmed,
};
use vstd::prelude::*;
use vstd::string::*;
use vstd::utf8::{decode_utf8, encode_utf8, encode_utf8_decode_utf8, is_char_boundary};

verus! {

/// What is known of a tracked container.
pub ghost struct TrackedContainer {
    pub id: Seq<char>,
    pub name: Seq<char>,
}

/// The samples of one container.
pub struct ContainerTracker {
    pub id: String,
    name: String,
}

impl View for ContainerTracker {
    type V = TrackedContainer;

    closed spec fn view(&self) -> TrackedContainer {
        TrackedContainer { id: self.id@, name: self.name@ }
    }
}

impl TrackedContainer {
    /// The values of the labels of the container's samples.
    pub open spec fn labels(self) -> Seq<Seq<char>> {
        seq![self.name]
    }
}

/// The first name is more than one byte of something other than white space at its ends.
pub open spec fn has_name(c: Container) -> bool {
    c.names@.len() > 0 && encode_utf8(trimmed(c.names@[0]@)).len() > 1
}

/// The text in the first twelve bytes of an identifier.
pub open spec fn short_id(id: Seq<char>) -> Seq<char> {
    decode_utf8(encode_utf8(id).subrange(0, 12))
}

/// The name that a container is shown under: its first name without the slashes at the front,
/// or the first twelve bytes of its identifier.
pub open spec fn display_name(c: Container) -> Seq<char> {
    if has_name(c) {
        c.names@[0]@.skip(leading_count(c.names@[0]@, '/') as int)
    } else {
        short_id(c.id@)
    }
}

/// There is a name to show the container under: where none is given, its identifier has
/// twelve bytes, and the twelfth ends a character.
pub open spec fn nameable(c: Container) -> bool {
    has_name(c) || is_char_boundary(encode_utf8(c.id@), 12)
}

fn named(c: &Container) -> (r: bool)
    ensures
        r == has_name(*c),
{
    c.names.len() > 0 && trim(c.names[0].as_str()).as_bytes().len() > 1
}

/// Whether there is a name to show the container under.
pub fn is_nameable(c: &Container) -> (r: bool)
    ensures
        r == nameable(*c),
{
    named(c) || c.id.as_str().is_char_boundary(12)
}

impl ContainerTracker {
    /// A tracker of the container `c`.
    pub fn new(c: Container) -> (r: Self)
        requires
            nameable(c),
        ensures
            r@ == (TrackedContainer { id: c.id@, name: display_name(c) }),
    {
        let name = Self::display_name(&c).to_owned();
        ContainerTracker { id: c.id, name }
    }

    /// The name that a container is shown under.
    pub fn display_name(c: &Container) -> (r: &str)
        requires
            nameable(*c),
        ensures
            r@ == display_name(*c),
    {
        if named(c) {
            trim_start_matches(c.names[0].as_str(), '/')
        } else {
            let (head, _) = c.id.as_str().split_at(12);
            proof {
                encode_utf8_decode_utf8(head@);
            }
            head
        }
    }
}

/// A copy of the values of labels.
fn copied(labels: &Vec<String>) -> (r: Vec<String>)
    ensures
        texts(r@) == texts(labels@),
{
    let r = labels.clone();
    assert(texts(r@) =~= texts(labels@));
    r
}

/// The change by which a sample says `value`.
fn publish(gauge: Gauge, labels: &Vec<String>, value: GaugeValue) -> (r: GaugeChange)
    ensures
        r@ == publishes(gauge, texts(labels@), value),
{
    GaugeChange::Publish { gauge, labels: copied(labels), value }
}

/// The change by which a sample goes.
fn withdraw(gauge: Gauge, labels: &Vec<String>) -> (r: GaugeChange)
    ensures
        r@ == withdraws(gauge, texts(labels@)),
{
    GaugeChange::Withdraw { gauge, labels: copied(labels) }
}

impl TrackedContainer {
    /// The changes by which all samples of the container go.
    pub open spec fn withdrawal(self) -> Seq<Change> {
        seq![
            withdraws(Gauge::ContainerCpuUsage, self.labels()),
            withdraws(Gauge::ContainerCpuCapacity, self.labels()),
            withdraws(Gauge::ContainerMemoryUsage, self.labels()),
            withdraws(Gauge::ContainerRestartCount, self.labels()),
            withdraws(Gauge::ContainerRunningState, self.labels()),
            withdraws(Gauge::ContainerStartTime, self.labels()),
            withdraws(Gauge::ContainerBytesIn, self.labels()),
            withdraws(Gauge::ContainerBytesOut, self.labels()),
            withdraws(Gauge::ContainerBytesRead, self.labels()),
            withdraws(Gauge::ContainerBytesWritten, self.labels()),
        ]
    }
}

impl ContainerTracker {
    /// The values of the labels of the container's samples.
    pub fn labels(&self) -> (r: Vec<String>)
        ensures
            texts(r@) == self@.labels(),
    {
        let r: Vec<String> = vec![self.name.clone()];
        assert(texts(r@) =~= self@.labels());
        r
    }

    /// The changes by which all samples of the container go.
    pub fn withdraw(self) -> (r: Vec<GaugeChange>)
        ensures
            changes(r@) == self@.withdrawal(),
    {
        let labels = self.labels();
        let r: Vec<GaugeChange> =
            vec![
            withdraw(Gauge::ContainerCpuUsage, &labels),
            withdraw(Gauge::ContainerCpuCapacity, &labels),
            withdraw(Gauge::ContainerMemoryUsage, &labels),
            withdraw(Gauge::ContainerRestartCount, &labels),
            withdraw(Gauge::ContainerRunningState, &labels),
            withdraw(Gauge::ContainerStartTime, &labels),
            withdraw(Gauge::ContainerBytesIn, &labels),
            withdraw(Gauge::ContainerBytesOut, &labels),
            withdraw(Gauge::ContainerBytesRead, &labels),
            withdraw(Gauge::ContainerBytesWritten, &labels),
        ];
        assert(changes(r@) =~= self@.withdrawal());
        r
    }
}

/// The sample of whether a container runs: 1 if it does, one half if it restarts, else 0.
pub open spec fn running_state(inspect: ContainerInspect) -> GaugeValue {
    if inspect.state.running {
        GaugeValue::Whole(1)
    } else if inspect.state.restarting {
        GaugeValue::Half
    } else {
        GaugeValue::Whole(0)
    }
}

/// The changes that inspecting a container leads to. `started` is its start time in seconds
/// since 1970, where there is one; what is not after 1970 is no start time. A container that
/// does not run uses no memory.
pub open spec fn inspect_changes(
    labels: Seq<Seq<char>>,
    inspect: ContainerInspect,
    started: Option<i64>,
) -> Seq<Change> {
    seq![
        publishes(Gauge::ContainerRunningState, labels, running_state(inspect)),
        publishes(
            Gauge::ContainerRestartCount,
            labels,
            GaugeValue::Whole(inspect.restart_count as u64),
        ),
    ] + (if started matches Some(t) && t > 0 {
        seq![publishes(Gauge::ContainerStartTime, labels, GaugeValue::Whole(started->0 as u64))]
    } else {
        seq![]
    }) + (if inspect.state.running {
        seq![]
    } else {
        seq![publishes(Gauge::ContainerMemoryUsage, labels, GaugeValue::Whole(0))]
    })
}

/// The seconds since 1970 of a point in time that is written as RFC 3339 lays down, by
/// `chrono::DateTime::parse_from_rfc3339` and `chrono::DateTime::timestamp`; nothing for any
/// other text.
pub uninterp spec fn rfc3339_seconds(text: Seq<char>) -> Option<i64>;

/// `chrono::DateTime::parse_from_rfc3339`, with the `timestamp` of what it reads: the outcome
/// depends on the text alone, and nothing is read from a text of fewer than nineteen bytes.
/// Which longer texts are read, and as what, is left unsaid.
#[verifier::external_body]
fn parse_rfc3339(text: &str) -> (r: Option<i64>)
    ensures
        r == rfc3339_seconds(text@),
        encode_utf8(text@).len() < 19 ==> r is None,
{
    match chrono::DateTime::parse_from_rfc3339(text) {
        Ok(d) => Some(d.timestamp()),
        Err(_) => None,
    }
}

impl ContainerTracker {
    /// The changes that inspecting the container leads to, where its start time is `started`.
    pub fn inspected(&self, inspect: &ContainerInspect, started: Option<i64>) -> (r: Vec<
        GaugeChange,
    >)
        ensures
            changes(r@) == inspect_changes(self@.labels(), *inspect, started),
    {
        let labels = self.labels();
        let state = if inspect.state.running {
            GaugeValue::Whole(1)
        } else if inspect.state.restarting {
            GaugeValue::Half
        } else {
            GaugeValue::Whole(0)
        };
        let mut r: Vec<GaugeChange> = Vec::new();
        r.push(publish(Gauge::ContainerRunningState, &labels, state));
        r.push(
            publish(
                Gauge::ContainerRestartCount,
                &labels,
                GaugeValue::Whole(inspect.restart_count as u64),
            ),
        );
        if let Some(t) = started {
            if t > 0 {
                r.push(publish(Gauge::ContainerStartTime, &labels, GaugeValue::Whole(t as u64)));
            }
        }
        if !inspect.state.running {
            r.push(publish(Gauge::ContainerMemoryUsage, &labels, GaugeValue::Whole(0)));
        }
        assert(changes(r@) =~= inspect_changes(self@.labels(), *inspect, started));
        r
    }
}

/// The sum of numbers.
pub open spec fn total(s: Seq<int>) -> int
    decreases s.len(),
{
    if s.len() == 0 {
        0
    } else {
        total(s.drop_last()) + s.last()
    }
}

/// The sums of the front parts of a list of numbers that are not negative only grow.
proof fn lemma_total_grows(s: Seq<int>, n: int)
    requires
        0 <= n <= s.len(),
        forall|i: int| 0 <= i < s.len() ==> s[i] >= 0,
    ensures
        0 <= total(s.take(n)) <= total(s),
    decreases s.len(),
{
    if n == s.len() {
        assert(s.take(n) =~= s);
        if n > 0 {
            lemma_total_grows(s.drop_last(), n - 1);
            assert(s.drop_last().take(n - 1) =~= s.drop_last());
        }
    } else {
        lemma_total_grows(s.drop_last(), n);
        assert(s.drop_last().take(n) =~= s.take(n));
    }
}

/// The bytes of memory that hold file contents which nobody uses: the first of two counters
/// that is there, 0 without either.
pub open spec fn inactive_file(memory: MemoryStats) -> u64 {
    if has_key(memory.stats@, "total_inactive_file"@) {
        value_under(memory.stats@, "total_inactive_file"@)
    } else if has_key(memory.stats@, "inactive_file"@) {
        value_under(memory.stats@, "inactive_file"@)
    } else {
        0
    }
}

/// The bytes that each network interface received.
pub open spec fn received(networks: Seq<(Seq<char>, Network)>) -> Seq<int> {
    networks.map_values(|e: (Seq<char>, Network)| e.1.rx_bytes as int)
}

/// The bytes that each network interface sent.
pub open spec fn sent(networks: Seq<(Seq<char>, Network)>) -> Seq<int> {
    networks.map_values(|e: (Seq<char>, Network)| e.1.tx_bytes as int)
}

/// The bytes that each entry counts for the operation `op`, whose name may come in any case.
pub open spec fn moved(entries: Seq<BlkioServiceBytesStat>, op: Seq<char>) -> Seq<int> {
    entries.map_values(
        |e: BlkioServiceBytesStat|
            if same_ignoring_ascii_case(e.op@, op) {
                e.value as int
            } else {
                0
            },
    )
}

/// The numbers fit: the sums into 64 bits, and memory in use is not less than the part of it
/// that is taken off.
pub open spec fn measurable(stats: ContainerStats) -> bool {
    &&& inactive_file(stats.memory_stats) <= stats.memory_stats.usage
    &&& total(received(stats.networks@)) <= u64::MAX
    &&& total(sent(stats.networks@)) <= u64::MAX
    &&& total(moved(stats.blkio_stats.io_service_bytes_recursive@, "read"@)) <= u64::MAX
    &&& total(moved(stats.blkio_stats.io_service_bytes_recursive@, "write"@)) <= u64::MAX
}

/// The changes that measuring a running container leads to.
pub open spec fn stats_changes(labels: Seq<Seq<char>>, stats: ContainerStats) -> Seq<Change> {
    let blkio = stats.blkio_stats.io_service_bytes_recursive@;
    seq![
        publishes(
            Gauge::ContainerCpuUsage,
            labels,
            GaugeValue::Whole(stats.cpu_stats.cpu_usage.total_usage),
        ),
        publishes(
            Gauge::ContainerCpuCapacity,
            labels,
            GaugeValue::Whole(stats.cpu_stats.system_cpu_usage),
        ),
        publishes(
            Gauge::ContainerMemoryUsage,
            labels,
            GaugeValue::Whole(
                (stats.memory_stats.usage - inactive_file(stats.memory_stats)) as u64,
            ),
        ),
        publishes(
            Gauge::ContainerBytesIn,
            labels,
            GaugeValue::Whole(total(received(stats.networks@)) as u64),
        ),
        publishes(
            Gauge::ContainerBytesOut,
            labels,
            GaugeValue::Whole(total(sent(stats.networks@)) as u64),
        ),
        publishes(
            Gauge::ContainerBytesRead,
            labels,
            GaugeValue::Whole(total(moved(blkio, "read"@)) as u64),
        ),
        publishes(
            Gauge::ContainerBytesWritten,
            labels,
            GaugeValue::Whole(total(moved(blkio, "write"@)) as u64),
        ),
    ]
}

/// Reads `inactive_file`.
fn inactive_file_bytes(memory: &MemoryStats) -> (r: u64)
    ensures
        r == inactive_file(*memory),
{
    match memory.stats.get("total_inactive_file") {
        Some(bytes) => *bytes,
        None => match memory.stats.get("inactive_file") {
            Some(bytes) => *bytes,
            None => 0,
        },
    }
}

/// The sum of what `received` lists, if it fits.
fn received_bytes(networks: &StringMap<Network>) -> (r: Option<u64>)
    ensures
        match r {
            Some(sum) => sum == total(received(networks@)),
            None => total(received(networks@)) > u64::MAX,
        },
{
    let n: usize = networks.len();
    let ghost all = received(networks@);
    let mut sum: u64 = 0;
    let mut i: usize = 0;
    while i < n
        invariant
            i <= n == networks@.len(),
            all == received(networks@),
            sum == total(all.take(i as int)),
        decreases n - i,
    {
        let bytes: u64 = networks.value(i).rx_bytes;
        proof {
            assert(all.take(i + 1).drop_last() =~= all.take(i as int));
            assert(all[i as int] == bytes);
            lemma_total_grows(all, i + 1);
        }
        match sum.checked_add(bytes) {
            Some(next) => {
                sum = next;
            },
            None => {
                return None;
            },
        }
        i = i + 1;
    }
    assert(all.take(n as int) =~= all);
    Some(sum)
}

/// The sum of what `sent` lists, if it fits.
fn sent_bytes(networks: &StringMap<Network>) -> (r: Option<u64>)
    ensures
        match r {
            Some(sum) => sum == total(sent(networks@)),
            None => total(sent(networks@)) > u64::MAX,
        },
{
    let n: usize = networks.len();
    let ghost all = sent(networks@);
    let mut sum: u64 = 0;
    let mut i: usize = 0;
    while i < n
        invariant
            i <= n == networks@.len(),
            all == sent(networks@),
            sum == total(all.take(i as int)),
        decreases n - i,
    {
        let bytes: u64 = networks.value(i).tx_bytes;
        proof {
            assert(all.take(i + 1).drop_last() =~= all.take(i as int));
            assert(all[i as int] == bytes);
            lemma_total_grows(all, i + 1);
        }
        match sum.checked_add(bytes) {
            Some(next) => {
                sum = next;
            },
            None => {
                return None;
            },
        }
        i = i + 1;
    }
    assert(all.take(n as int) =~= all);
    Some(sum)
}

/// The sum of what `moved` lists for `op`, if it fits.
fn moved_bytes(entries: &Vec<BlkioServiceBytesStat>, op: &str) -> (r: Option<u64>)
    ensures
        match r {
            Some(sum) => sum == total(moved(entries@, op@)),
            None => total(moved(entries@, op@)) > u64::MAX,
        },
{
    let n: usize = entries.len();
    let ghost all = moved(entries@, op@);
    let mut sum: u64 = 0;
    let mut i: usize = 0;
    while i < n
        invariant
            i <= n == entries@.len(),
            all == moved(entries@, op@),
            sum == total(all.take(i as int)),
        decreases n - i,
    {
        let bytes: u64 = if eq_ignore_ascii_case(entries[i].op.as_str(), op) {
            entries[i].value
        } else {
            0
        };
        proof {
            assert(all.take(i + 1).drop_last() =~= all.take(i as int));
            assert(all[i as int] == bytes);
            lemma_total_grows(all, i + 1);
        }
        match sum.checked_add(bytes) {
            Some(next) => {
                sum = next;
            },
            None => {
                return None;
            },
        }
        i = i + 1;
    }
    assert(all.take(n as int) =~= all);
    Some(sum)
}

/// What is left of a container's memory in use, and its traffic.
struct Measures {
    memory: u64,
    bytes_in: u64,
    bytes_out: u64,
    bytes_read: u64,
    bytes_written: u64,
}

/// The measures, if the numbers fit.
fn measures(stats: &ContainerStats) -> (r: Option<Measures>)
    ensures
        r is Some == measurable(*stats),
        r matches Some(m) ==> {
            &&& m.memory == stats.memory_stats.usage - inactive_file(stats.memory_stats)
            &&& m.bytes_in == total(received(stats.networks@))
            &&& m.bytes_out == total(sent(stats.networks@))
            &&& m.bytes_read == total(
                moved(stats.blkio_stats.io_service_bytes_recursive@, "read"@),
            )
            &&& m.bytes_written == total(
                moved(stats.blkio_stats.io_service_bytes_recursive@, "write"@),
            )
        },
{
    let inactive: u64 = inactive_file_bytes(&stats.memory_stats);
    let blkio = &stats.blkio_stats.io_service_bytes_recursive;
    match (
        stats.memory_stats.usage.checked_sub(inactive),
        received_bytes(&stats.networks),
        sent_bytes(&stats.networks),
        moved_bytes(blkio, "read"),
        moved_bytes(blkio, "write"),
    ) {
        (
            Some(memory),
            Some(bytes_in),
            Some(bytes_out),
            Some(bytes_read),
            Some(bytes_written),
        ) => Some(Measures { memory, bytes_in, bytes_out, bytes_read, bytes_written }),
        _ => None,
    }
}

/// Whether the numbers fit.
pub fn is_measurable(stats: &ContainerStats) -> (r: bool)
    ensures
        r == measurable(*stats),
{
    measures(stats).is_some()
}

impl ContainerTracker {
    /// The changes that measuring the running container leads to.
    pub fn measured(&self, stats: &ContainerStats) -> (r: Vec<GaugeChange>)
        requires
            measurable(*stats),
        ensures
            changes(r@) == stats_changes(self@.labels(), *stats),
    {
        let labels = self.labels();
        let mut r: Vec<GaugeChange> = Vec::new();
        if let Some(m) = measures(stats) {
            r.push(
                publish(
                    Gauge::ContainerCpuUsage,
                    &labels,
                    GaugeValue::Whole(stats.cpu_stats.cpu_usage.total_usage),
                ),
            );
            r.push(
                publish(
                    Gauge::ContainerCpuCapacity,
                    &labels,
                    GaugeValue::Whole(stats.cpu_stats.system_cpu_usage),
                ),
            );
            r.push(publish(Gauge::ContainerMemoryUsage, &labels, GaugeValue::Whole(m.memory)));
            r.push(publish(Gauge::ContainerBytesIn, &labels, GaugeValue::Whole(m.bytes_in)));
            r.push(publish(Gauge::ContainerBytesOut, &labels, GaugeValue::Whole(m.bytes_out)));
            r.push(publish(Gauge::ContainerBytesRead, &labels, GaugeValue::Whole(m.bytes_read)));
            r.push(
                publish(Gauge::ContainerBytesWritten, &labels, GaugeValue::Whole(m.bytes_written)),
            );
        }
        assert(changes(r@) =~= stats_changes(self@.labels(), *stats));
        r
    }
}

/// What happens while the samples of a container are updated.
pub enum ContainerEvent {
    /// The update begins.
    Begin,
    /// Inspecting the container has ended.
    Inspected(DockerResult<ContainerInspect>),
    /// Measuring the container has ended.
    Measured(DockerResult<ContainerStats>),
}

/// What the update of a container's samples goes on with.
pub enum ContainerAction {
    /// Inspect the container.
    Inspect,
    /// Measure the container.
    Measure,
    /// Nothing; the update has ended.
    Finish(DockerResult<()>),
}

/// A step of the update of a container's samples: the changes to make, and what comes next.
pub struct ContainerStep {
    pub changes: Vec<GaugeChange>,
    pub action: ContainerAction,
}

/// A container is inspected first. If that fails, so does the update. If the container does
/// not run, the update ends there; else the container is measured, and the update fails if
/// that fails.
pub open spec fn container_step(
    labels: Seq<Seq<char>>,
    event: ContainerEvent,
    step: ContainerStep,
) -> bool {
    match event {
        ContainerEvent::Begin => {
            &&& changes(step.changes@) == Seq::<Change>::empty()
            &&& step.action is Inspect
        },
        ContainerEvent::Inspected(Ok(inspect)) => {
            &&& changes(step.changes@) == inspect_changes(
                labels,
                inspect,
                rfc3339_seconds(inspect.state.started_at@),
            )
            &&& if inspect.state.running {
                step.action is Measure
            } else {
                step.action matches ContainerAction::Finish(r) && r is Ok
            }
        },
        ContainerEvent::Measured(Ok(stats)) => {
            &&& changes(step.changes@) == stats_changes(labels, stats)
            &&& step.action matches ContainerAction::Finish(r) && r is Ok
        },
        ContainerEvent::Inspected(Err(error)) | ContainerEvent::Measured(Err(error)) => {
            &&& changes(step.changes@) == Seq::<Change>::empty()
            &&& step.action matches ContainerAction::Finish(Err(e)) && e == error
        },
    }
}

impl ContainerTracker {
    /// The next step of the update of the container's samples.
    pub fn update(&self, event: ContainerEvent) -> (r: ContainerStep)
        requires
            event matches ContainerEvent::Measured(Ok(stats)) ==> measurable(stats),
        ensures
            container_step(self@.labels(), event, r),
            event matches ContainerEvent::Inspected(Ok(inspect)) ==> encode_utf8(
                inspect.state.started_at@,
            ).len() < 19 ==> changes(r.changes@) == inspect_changes(self@.labels(), inspect, None),
    {
        match event {
            ContainerEvent::Begin => {
                let none: Vec<GaugeChange> = Vec::new();
                assert(changes(none@) =~= Seq::<Change>::empty());
                ContainerStep { changes: none, action: ContainerAction::Inspect }
            },
            ContainerEvent::Inspected(Ok(inspect)) => {
                let started = parse_rfc3339(inspect.state.started_at.as_str());
                let list = self.inspected(&inspect, started);
                if inspect.state.running {
                    ContainerStep { changes: list, action: ContainerAction::Measure }
                } else {
                    ContainerStep { changes: list, action: ContainerAction::Finish(Ok(())) }
                }
            },
            ContainerEvent::Measured(Ok(stats)) => ContainerStep {
                changes: self.measured(&stats),
                action: ContainerAction::Finish(Ok(())),
            },
            ContainerEvent::Inspected(Err(error)) => failed(error),
            ContainerEvent::Measured(Err(error)) => failed(error),
        }
    }
}

/// The step by which an update fails.
fn failed(error: DockerError) -> (r: ContainerStep)
    ensures
        changes(r.changes@) == Seq::<Change>::empty(),
        r.action matches ContainerAction::Finish(Err(e)) && e == error,
{
    let none: Vec<GaugeChange> = Vec::new();
    assert(changes(none@) =~= Seq::<Change>::empty());
    ContainerStep { changes: none, action: ContainerAction::Finish(Err(error)) }
}

/// What is known of a tracked volume.
pub ghost struct TrackedVolume {
    pub name: Seq<char>,
    pub anonymous: Seq<char>,
    pub driver: Seq<char>,
    pub compose_project: Seq<char>,
    pub service: Seq<char>,
}

/// The samples of one volume.
pub struct VolumeTracker {
    pub name: String,
    anonymous: String,
    driver: String,
    compose_project: String,
    service: String,
}

impl View for VolumeTracker {
    type V = TrackedVolume;

    closed spec fn view(&self) -> TrackedVolume {
        TrackedVolume {
            name: self.name@,
            anonymous: self.anonymous@,
            driver: self.driver@,
            compose_project: self.compose_project@,
            service: self.service@,
        }
    }
}

/// The text under a label, or none.
pub open spec fn label_or_empty(labels: Seq<(Seq<char>, String)>, key: Seq<char>) -> Seq<char> {
    if has_key(labels, key) {
        value_under(labels, key)@
    } else {
        Seq::empty()
    }
}

/// What is tracked of a volume. A volume is anonymous where a label says so, whatever the
/// label's text.
pub open spec fn tracked_volume(v: Volume) -> TrackedVolume {
    TrackedVolume {
        name: v.name@,
        anonymous: if has_key(v.labels@, "com.docker.volume.anonymous"@) {
            "true"@
        } else {
            "false"@
        },
        driver: v.driver@,
        compose_project: label_or_empty(v.labels@, "com.docker.compose.project"@),
        service: label_or_empty(v.labels@, "com.docker.compose.service"@),
    }
}

impl TrackedVolume {
    /// The values of the labels of the volume's samples.
    pub open spec fn labels(self) -> Seq<Seq<char>> {
        seq![self.name, self.anonymous, self.driver, self.compose_project, self.service]
    }

    /// The changes that a volume's use leads to.
    pub open spec fn usage_changes(self, usage: VolumeUsage) -> Seq<Change> {
        seq![
            publishes(Gauge::VolumeSize, self.labels(), GaugeValue::Whole(usage.size)),
            publishes(
                Gauge::VolumeContainerCount,
                self.labels(),
                GaugeValue::Whole(usage.ref_count as u64),
            ),
        ]
    }

    /// The changes by which all samples of the volume go.
    pub open spec fn withdrawal(self) -> Seq<Change> {
        seq![
            withdraws(Gauge::VolumeSize, self.labels()),
            withdraws(Gauge::VolumeContainerCount, self.labels()),
        ]
    }
}

fn label(labels: &StringMap<String>, key: &str) -> (r: String)
    ensures
        r@ == label_or_empty(labels@, key@),
{
    match labels.get(key) {
        Some(text) => text.clone(),
        None => String::new(),
    }
}

impl VolumeTracker {
    /// A tracker of the volume `v`, and the changes that its use leads to.
    pub fn new(v: Volume) -> (r: (Self, Vec<GaugeChange>))
        ensures
            r.0@ == tracked_volume(v),
            changes(r.1@) == tracked_volume(v).usage_changes(v.usage_data),
    {
        let tracker = VolumeTracker {
            anonymous: if v.labels.contains_key("com.docker.volume.anonymous") {
                "true".to_owned()
            } else {
                "false".to_owned()
            },
            compose_project: label(&v.labels, "com.docker.compose.project"),
            service: label(&v.labels, "com.docker.compose.service"),
            name: v.name,
            driver: v.driver,
        };
        let list = tracker.update_usage(&v.usage_data);
        (tracker, list)
    }

    /// The values of the labels of the volume's samples.
    pub fn labels(&self) -> (r: Vec<String>)
        ensures
            texts(r@) == self@.labels(),
    {
        let r: Vec<String> =
            vec![
            self.name.clone(),
            self.anonymous.clone(),
            self.driver.clone(),
            self.compose_project.clone(),
            self.service.clone(),
        ];
        assert(texts(r@) =~= self@.labels());
        r
    }

    /// The changes that a new listing of the volume leads to.
    pub fn update(&self, volume: &Volume) -> (r: Vec<GaugeChange>)
        ensures
            changes(r@) == self@.usage_changes(volume.usage_data),
    {
        self.update_usage(&volume.usage_data)
    }

    /// The changes that a volume's use leads to.
    pub fn update_usage(&self, usage: &VolumeUsage) -> (r: Vec<GaugeChange>)
        ensures
            changes(r@) == self@.usage_changes(*usage),
    {
        let labels = self.labels();
        let r: Vec<GaugeChange> =
            vec![
            publish(Gauge::VolumeSize, &labels, GaugeValue::Whole(usage.size)),
            publish(
                Gauge::VolumeContainerCount,
                &labels,
                GaugeValue::Whole(usage.ref_count as u64),
            ),
        ];
        assert(changes(r@) =~= self@.usage_changes(*usage));
        r
    }

    /// The changes by which all samples of the volume go.
    pub fn withdraw(self) -> (r: Vec<GaugeChange>)
        ensures
            changes(r@) == self@.withdrawal(),
    {
        let labels = self.labels();
        let r: Vec<GaugeChange> =
            vec![
            withdraw(Gauge::VolumeSize, &labels),
            withdraw(Gauge::VolumeContainerCount, &labels),
        ];
        assert(changes(r@) =~= self@.withdrawal());
        r
    }
}

/// What is known of a tracked image.
pub ghost struct TrackedImage {
    pub id: Seq<char>,
    pub tag: Seq<char>,
}

/// The samples of one image.
pub struct ImageTracker {
    pub id: String,
    tag: String,
}

impl View for ImageTracker {
    type V = TrackedImage;

    closed spec fn view(&self) -> TrackedImage {
        TrackedImage { id: self.id@, tag: self.tag@ }
    }
}

/// The first tag that does not hold `<none>`, if there is one.
pub open spec fn first_tag(tags: Seq<String>) -> Option<Seq<char>>
    decreases tags.len(),
{
    if tags.len() == 0 {
        None
    } else if !occurs(tags.first()@, "<none>"@) {
        Some(tags.first()@)
    } else {
        first_tag(tags.drop_first())
    }
}

/// What is tracked of an image: an image without a tag goes by its identifier.
pub open spec fn tracked_image(i: Image) -> TrackedImage {
    TrackedImage {
        id: i.id@,
        tag: match first_tag(i.repo_tags@) {
            Some(tag) => tag,
            None => i.id@,
        },
    }
}

impl TrackedImage {
    /// The values of the labels of the image's samples.
    pub open spec fn labels(self) -> Seq<Seq<char>> {
        seq![self.tag]
    }

    /// The changes that a listing leads to.
    pub open spec fn listing_changes(self, containers: u32, size: u64) -> Seq<Change> {
        seq![
            publishes(
                Gauge::ImageContainerCount,
                self.labels(),
                GaugeValue::Whole(containers as u64),
            ),
            publishes(Gauge::ImageSize, self.labels(), GaugeValue::Whole(size)),
        ]
    }

    /// The changes by which all samples of the image go.
    pub open spec fn withdrawal(self) -> Seq<Change> {
        seq![
            withdraws(Gauge::ImageContainerCount, self.labels()),
            withdraws(Gauge::ImageSize, self.labels()),
        ]
    }
}

fn find_tag(tags: &Vec<String>) -> (r: Option<String>)
    ensures
        match r {
            Some(tag) => first_tag(tags@) == Some(tag@),
            None => first_tag(tags@) is None,
        },
{
    let n: usize = tags.len();
    let mut i: usize = 0;
    assert(tags@.skip(0) =~= tags@);
    while i < n
        invariant
            i <= n == tags@.len(),
            first_tag(tags@) == first_tag(tags@.skip(i as int)),
        decreases n - i,
    {
        if !contains(tags[i].as_str(), "<none>") {
            return Some(tags[i].clone());
        }
        assert(tags@.skip(i as int).drop_first() =~= tags@.skip(i + 1));
        i = i + 1;
    }
    None
}

impl ImageTracker {
    /// A tracker of the image `i`, and the changes that its listing leads to.
    pub fn new(i: Image) -> (r: (Self, Vec<GaugeChange>))
        ensures
            r.0@ == tracked_image(i),
            changes(r.1@) == tracked_image(i).listing_changes(i.containers, i.size),
    {
        let tag = match find_tag(&i.repo_tags) {
            Some(tag) => tag,
            None => i.id.clone(),
        };
        let tracker = ImageTracker { id: i.id, tag };
        let list = tracker.update_values(i.containers, i.size);
        (tracker, list)
    }

    /// The values of the labels of the image's samples.
    pub fn labels(&self) -> (r: Vec<String>)
        ensures
            texts(r@) == self@.labels(),
    {
        let r: Vec<String> = vec![self.tag.clone()];
        assert(texts(r@) =~= self@.labels());
        r
    }

    /// The changes that a new listing of the image leads to.
    pub fn update(&self, image: &Image) -> (r: Vec<GaugeChange>)
        ensures
            changes(r@) == self@.listing_changes(image.containers, image.size),
    {
        self.update_values(image.containers, image.size)
    }

    /// The changes that a listing leads to.
    pub fn update_values(&self, containers: u32, size: u64) -> (r: Vec<GaugeChange>)
        ensures
            changes(r@) == self@.listing_changes(containers, size),
    {
        let labels = self.labels();
        let r: Vec<GaugeChange> =
            vec![
            publish(Gauge::ImageContainerCount, &labels, GaugeValue::Whole(containers as u64)),
            publish(Gauge::ImageSize, &labels, GaugeValue::Whole(size)),
        ];
        assert(changes(r@) =~= self@.listing_changes(containers, size));
        r
    }

    /// The changes by which all samples of the image go.
    pub fn withdraw(self) -> (r: Vec<GaugeChange>)
        ensures
            changes(r@) == self@.withdrawal(),
    {
        let labels = self.labels();
        let r: Vec<GaugeChange> =
            vec![withdraw(Gauge::ImageContainerCount, &labels), withdraw(Gauge::ImageSize, &labels)];
        assert(changes(r@) =~= self@.withdrawal());
        r
    }
}

} // verus!
