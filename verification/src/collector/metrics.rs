//! The metrics that the exporter publishes: their names, what they mean and the labels that
//! tell their samples apart.

use vstd::prelude::*;

verus! {

/// The gauges: one for each thing that is measured of containers, volumes and images.
#[derive(Clone, Copy, Debug, PartialEq, Eq, Structural)]
pub enum Gauge {
    ContainerCpuUsage,
    ContainerCpuCapacity,
    ContainerMemoryUsage,
    ContainerRestartCount,
    ContainerRunningState,
    ContainerStartTime,
    ContainerBytesIn,
    ContainerBytesOut,
    ContainerBytesRead,
    ContainerBytesWritten,
    VolumeSize,
    VolumeContainerCount,
    ImageContainerCount,
    ImageSize,
}

/// How a gauge is announced.
pub struct Definition {
    pub gauge: Gauge,
    pub name: &'static str,
    pub help: &'static str,
    pub labels: Vec<&'static str>,
}

/// The name of the histogram of how long updates take.
pub const PROBE_DURATION_NAME: &'static str = "docker_probe_duration_seconds";

/// What the histogram of how long updates take means.
pub const PROBE_DURATION_HELP: &'static str =
    "How long it takes to query Docker for the complete data set.";

/// The upper bound of the first bucket of that histogram, in seconds.
pub const PROBE_DURATION_FIRST_BUCKET: u32 = 1;

/// By how much each bucket's bound exceeds that of the bucket before.
pub const PROBE_DURATION_BUCKET_FACTOR: u32 = 2;

/// How many buckets that histogram has.
pub const PROBE_DURATION_BUCKETS: usize = 7;

/// The name of the counter of failed queries.
pub const PROBE_FAILURES_NAME: &'static str = "docker_probe_failures_total";

/// What the counter of failed queries means.
pub const PROBE_FAILURES_HELP: &'static str =
    "The number of times any individual Docker query failed (because of a timeout or other reasons).";

impl Gauge {
    /// The place of a gauge in the order in which gauges are announced.
    pub open spec fn place(self) -> int {
        match self {
            Gauge::ContainerCpuUsage => 0,
            Gauge::ContainerCpuCapacity => 1,
            Gauge::ContainerMemoryUsage => 2,
            Gauge::ContainerRestartCount => 3,
            Gauge::ContainerRunningState => 4,
            Gauge::ContainerStartTime => 5,
            Gauge::ContainerBytesIn => 6,
            Gauge::ContainerBytesOut => 7,
            Gauge::ContainerBytesRead => 8,
            Gauge::ContainerBytesWritten => 9,
            Gauge::VolumeSize => 10,
            Gauge::VolumeContainerCount => 11,
            Gauge::ImageContainerCount => 12,
            Gauge::ImageSize => 13,
        }
    }

    /// The name that a gauge is published under.
    pub open spec fn published_name(self) -> Seq<char> {
        match self {
            Gauge::ContainerCpuUsage => "docker_container_cpu_used_total"@,
            Gauge::ContainerCpuCapacity => "docker_container_cpu_capacity_total"@,
            Gauge::ContainerMemoryUsage => "docker_container_memory_used_bytes"@,
            Gauge::ContainerRestartCount => "docker_container_restart_count"@,
            Gauge::ContainerRunningState => "docker_container_running_state"@,
            Gauge::ContainerStartTime => "docker_container_start_time_seconds"@,
            Gauge::ContainerBytesIn => "docker_container_network_in_bytes"@,
            Gauge::ContainerBytesOut => "docker_container_network_out_bytes"@,
            Gauge::ContainerBytesRead => "docker_container_disk_read_bytes"@,
            Gauge::ContainerBytesWritten => "docker_container_disk_write_bytes"@,
            Gauge::VolumeSize => "docker_volume_size"@,
            Gauge::VolumeContainerCount => "docker_volume_container_count"@,
            Gauge::ImageContainerCount => "docker_image_container_count"@,
            Gauge::ImageSize => "docker_image_size"@,
        }
    }

    /// What a gauge means.
    pub open spec fn meaning(self) -> Seq<char> {
        match self {
            Gauge::ContainerCpuUsage => "Accumulated CPU usage of a container, in unspecified units, averaged for all logical CPUs usable by the container."@,
            Gauge::ContainerCpuCapacity => "All potential CPU usage available to a container, in unspecified units, averaged for all logical CPUs usable by the container. Start point of measurement is undefined - only relative values should be used in analytics."@,
            Gauge::ContainerMemoryUsage => "Memory usage of a container."@,
            Gauge::ContainerRestartCount => "Number of times the runtime has restarted this container without explicit user action, since the container was last started."@,
            Gauge::ContainerRunningState => "Whether the container is running (1), restarting (0.5) or stopped (0)."@,
            Gauge::ContainerStartTime => "Timestamp indicating when the container was started. Does not get reset by automatic restarts."@,
            Gauge::ContainerBytesIn => "Total bytes received by the container's network interfaces."@,
            Gauge::ContainerBytesOut => "Total bytes sent by the container's network interfaces."@,
            Gauge::ContainerBytesRead => "Total bytes read from disk by a container."@,
            Gauge::ContainerBytesWritten => "Total bytes written to disk by a container."@,
            Gauge::VolumeSize => "Size of a volume in bytes."@,
            Gauge::VolumeContainerCount => "The number of containers using a volume."@,
            Gauge::ImageContainerCount => "The number of containers based on an image."@,
            Gauge::ImageSize => "The size of on an image in bytes."@,
        }
    }

    /// The gauge is one of containers.
    pub open spec fn of_container(self) -> bool {
        self.place() < 10
    }

    /// The gauge is one of volumes.
    pub open spec fn of_volume(self) -> bool {
        10 <= self.place() < 12
    }

    /// The names of the labels that tell a gauge's samples apart.
    pub open spec fn label_names(self) -> Seq<Seq<char>> {
        if self.of_container() {
            seq!["name"@]
        } else if self.of_volume() {
            seq!["name"@, "anonymous"@, "driver"@, "compose_project"@, "service"@]
        } else {
            seq!["tag"@]
        }
    }

    /// The place of the gauge in the order in which gauges are announced.
    pub fn index(&self) -> (r: usize)
        ensures
            r == self.place(),
            r < 14,
    {
        match self {
            Gauge::ContainerCpuUsage => 0,
            Gauge::ContainerCpuCapacity => 1,
            Gauge::ContainerMemoryUsage => 2,
            Gauge::ContainerRestartCount => 3,
            Gauge::ContainerRunningState => 4,
            Gauge::ContainerStartTime => 5,
            Gauge::ContainerBytesIn => 6,
            Gauge::ContainerBytesOut => 7,
            Gauge::ContainerBytesRead => 8,
            Gauge::ContainerBytesWritten => 9,
            Gauge::VolumeSize => 10,
            Gauge::VolumeContainerCount => 11,
            Gauge::ImageContainerCount => 12,
            Gauge::ImageSize => 13,
        }
    }
}

/// What announcing a gauge says of it.
pub open spec fn announces(d: Definition, gauge: Gauge) -> bool {
    &&& d.gauge == gauge
    &&& d.name@ == gauge.published_name()
    &&& d.help@ == gauge.meaning()
    &&& d.labels@.map_values(|s: &'static str| s@) == gauge.label_names()
}

fn container_gauge(gauge: Gauge, name: &'static str, help: &'static str) -> (r: Definition)
    requires
        gauge.of_container(),
        name@ == gauge.published_name(),
        help@ == gauge.meaning(),
    ensures
        announces(r, gauge),
{
    let labels: Vec<&'static str> = vec!["name"];
    assert(labels@.map_values(|s: &'static str| s@) =~= gauge.label_names());
    Definition { gauge, name, help, labels }
}

fn volume_gauge(gauge: Gauge, name: &'static str, help: &'static str) -> (r: Definition)
    requires
        gauge.of_volume(),
        name@ == gauge.published_name(),
        help@ == gauge.meaning(),
    ensures
        announces(r, gauge),
{
    let labels: Vec<&'static str> = vec!["name", "anonymous", "driver", "compose_project", "service"];
    assert(labels@.map_values(|s: &'static str| s@) =~= gauge.label_names());
    Definition { gauge, name, help, labels }
}

fn image_gauge(gauge: Gauge, name: &'static str, help: &'static str) -> (r: Definition)
    requires
        !gauge.of_container(),
        !gauge.of_volume(),
        name@ == gauge.published_name(),
        help@ == gauge.meaning(),
    ensures
        announces(r, gauge),
{
    let labels: Vec<&'static str> = vec!["tag"];
    assert(labels@.map_values(|s: &'static str| s@) =~= gauge.label_names());
    Definition { gauge, name, help, labels }
}

/// The gauges to announce, each at its place.
pub fn definitions() -> (r: Vec<Definition>)
    ensures
        r@.len() == 14,
        forall|i: int|
            #![trigger r@[i]]
            0 <= i < 14 ==> r@[i].gauge.place() == i && announces(r@[i], r@[i].gauge),
{
    let mut r: Vec<Definition> = Vec::new();
    r.push(
        container_gauge(
            Gauge::ContainerCpuUsage,
            "docker_container_cpu_used_total",
            "Accumulated CPU usage of a container, in unspecified units, averaged for all logical CPUs usable by the container.",
        ),
    );
    r.push(
        container_gauge(
            Gauge::ContainerCpuCapacity,
            "docker_container_cpu_capacity_total",
            "All potential CPU usage available to a container, in unspecified units, averaged for all logical CPUs usable by the container. Start point of measurement is undefined - only relative values should be used in analytics.",
        ),
    );
    r.push(
        container_gauge(
            Gauge::ContainerMemoryUsage,
            "docker_container_memory_used_bytes",
            "Memory usage of a container.",
        ),
    );
    r.push(
        container_gauge(
            Gauge::ContainerRestartCount,
            "docker_container_restart_count",
            "Number of times the runtime has restarted this container without explicit user action, since the container was last started.",
        ),
    );
    r.push(
        container_gauge(
            Gauge::ContainerRunningState,
            "docker_container_running_state",
            "Whether the container is running (1), restarting (0.5) or stopped (0).",
        ),
    );
    r.push(
        container_gauge(
            Gauge::ContainerStartTime,
            "docker_container_start_time_seconds",
            "Timestamp indicating when the container was started. Does not get reset by automatic restarts.",
        ),
    );
    r.push(
        container_gauge(
            Gauge::ContainerBytesIn,
            "docker_container_network_in_bytes",
            "Total bytes received by the container's network interfaces.",
        ),
    );
    r.push(
        container_gauge(
            Gauge::ContainerBytesOut,
            "docker_container_network_out_bytes",
            "Total bytes sent by the container's network interfaces.",
        ),
    );
    r.push(
        container_gauge(
            Gauge::ContainerBytesRead,
            "docker_container_disk_read_bytes",
            "Total bytes read from disk by a container.",
        ),
    );
    r.push(
        container_gauge(
            Gauge::ContainerBytesWritten,
            "docker_container_disk_write_bytes",
            "Total bytes written to disk by a container.",
        ),
    );
    r.push(
        volume_gauge(
            Gauge::VolumeSize,
            "docker_volume_size",
            "Size of a volume in bytes.",
        ),
    );
    r.push(
        volume_gauge(
            Gauge::VolumeContainerCount,
            "docker_volume_container_count",
            "The number of containers using a volume.",
        ),
    );
    r.push(
        image_gauge(
            Gauge::ImageContainerCount,
            "docker_image_container_count",
            "The number of containers based on an image.",
        ),
    );
    r.push(
        image_gauge(
            Gauge::ImageSize,
            "docker_image_size",
            "The size of on an image in bytes.",
        ),
    );
    r
}

/// No two gauges have the same place, so that a gauge is found by its place.
pub proof fn places_are_distinct(a: Gauge, b: Gauge)
    requires
        a.place() == b.place(),
    ensures
        a == b,
{
}

/// What tells a name apart: its length and three of its characters.
spec fn fingerprint(gauge: Gauge) -> (int, char, char, char) {
    match gauge {
        Gauge::ContainerCpuUsage => (31, 'c', 'c', 'p'),
        Gauge::ContainerCpuCapacity => (35, 'c', 'c', 'p'),
        Gauge::ContainerMemoryUsage => (34, 'c', 'm', 'e'),
        Gauge::ContainerRestartCount => (30, 'c', 'r', 'e'),
        Gauge::ContainerRunningState => (30, 'c', 'r', 'u'),
        Gauge::ContainerStartTime => (35, 'c', 's', 't'),
        Gauge::ContainerBytesIn => (33, 'c', 'n', 'e'),
        Gauge::ContainerBytesOut => (34, 'c', 'n', 'e'),
        Gauge::ContainerBytesRead => (32, 'c', 'd', 'i'),
        Gauge::ContainerBytesWritten => (33, 'c', 'd', 'i'),
        Gauge::VolumeSize => (18, 'v', '_', '_'),
        Gauge::VolumeContainerCount => (29, 'v', 't', 'a'),
        Gauge::ImageContainerCount => (28, 'i', 'a', 'i'),
        Gauge::ImageSize => (17, 'i', '_', '_'),
    }
}

proof fn lemma_fingerprint(gauge: Gauge)
    ensures
        gauge.published_name().len() == fingerprint(gauge).0,
        gauge.published_name()[7] == fingerprint(gauge).1,
        fingerprint(gauge).0 > 18 ==> gauge.published_name()[17] == fingerprint(gauge).2
            && gauge.published_name()[18] == fingerprint(gauge).3,
{
    reveal_strlit("docker_container_cpu_used_total");
    reveal_strlit("docker_container_cpu_capacity_total");
    reveal_strlit("docker_container_memory_used_bytes");
    reveal_strlit("docker_container_restart_count");
    reveal_strlit("docker_container_running_state");
    reveal_strlit("docker_container_start_time_seconds");
    reveal_strlit("docker_container_network_in_bytes");
    reveal_strlit("docker_container_network_out_bytes");
    reveal_strlit("docker_container_disk_read_bytes");
    reveal_strlit("docker_container_disk_write_bytes");
    reveal_strlit("docker_volume_size");
    reveal_strlit("docker_volume_container_count");
    reveal_strlit("docker_image_container_count");
    reveal_strlit("docker_image_size");
}

/// No two gauges have the same name, and none has that of the histogram or the counter: all of
/// them can be announced together.
pub proof fn names_are_distinct(a: Gauge, b: Gauge)
    ensures
        a != b ==> a.published_name() != b.published_name(),
        a.published_name() != PROBE_DURATION_NAME@,
        a.published_name() != PROBE_FAILURES_NAME@,
        PROBE_DURATION_NAME@ != PROBE_FAILURES_NAME@,
{
    lemma_fingerprint(a);
    lemma_fingerprint(b);
    reveal_strlit("docker_probe_duration_seconds");
    reveal_strlit("docker_probe_failures_total");
    assert(PROBE_DURATION_NAME@.len() != PROBE_FAILURES_NAME@.len());
}

/// The name of a gauge begins with what is measured, and only gauges of containers tell their
/// samples apart by a container's name, those of volumes by the five labels of volumes, those
/// of images by a tag.
pub proof fn names_begin_with_what_is_measured(gauge: Gauge)
    ensures
        "docker_container_"@.is_prefix_of(gauge.published_name()) <==> gauge.of_container(),
        "docker_volume_"@.is_prefix_of(gauge.published_name()) <==> gauge.of_volume(),
        "docker_image_"@.is_prefix_of(gauge.published_name()) <==> !gauge.of_container()
            && !gauge.of_volume(),
        gauge.of_container() ==> gauge.label_names() == seq!["name"@],
        gauge.of_volume() ==> gauge.label_names() == seq![
            "name"@,
            "anonymous"@,
            "driver"@,
            "compose_project"@,
            "service"@,
        ],
        !gauge.of_container() && !gauge.of_volume() ==> gauge.label_names() == seq!["tag"@],
{
    lemma_fingerprint(gauge);
    reveal_strlit("docker_container_");
    reveal_strlit("docker_volume_");
    reveal_strlit("docker_image_");
    reveal_strlit("docker_container_cpu_used_total");
    reveal_strlit("docker_container_cpu_capacity_total");
    reveal_strlit("docker_container_memory_used_bytes");
    reveal_strlit("docker_container_restart_count");
    reveal_strlit("docker_container_running_state");
    reveal_strlit("docker_container_start_time_seconds");
    reveal_strlit("docker_container_network_in_bytes");
    reveal_strlit("docker_container_network_out_bytes");
    reveal_strlit("docker_container_disk_read_bytes");
    reveal_strlit("docker_container_disk_write_bytes");
    reveal_strlit("docker_volume_size");
    reveal_strlit("docker_volume_container_count");
    reveal_strlit("docker_image_container_count");
    reveal_strlit("docker_image_size");
    let name = gauge.published_name();
    assert("docker_container_"@[7] == 'c' && "docker_volume_"@[7] == 'v' && "docker_image_"@[7]
        == 'i');
    if gauge.of_container() {
        assert("docker_container_"@ =~= name.subrange(0, 17));
    } else if gauge.of_volume() {
        assert("docker_volume_"@ =~= name.subrange(0, 14));
    } else {
        assert("docker_image_"@ =~= name.subrange(0, 13));
    }
    assert(name.subrange(0, 17)[7] == name[7]);
    assert(name.subrange(0, 14)[7] == name[7]);
    assert(name.subrange(0, 13)[7] == name[7]);
}

} // verus!
