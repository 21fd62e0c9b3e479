//! What single containers, volumes and images are published as.

use docker_exporter::collector::metrics::{
    definitions, Gauge, PROBE_DURATION_BUCKETS, PROBE_DURATION_BUCKET_FACTOR,
    PROBE_DURATION_FIRST_BUCKET, PROBE_DURATION_NAME, PROBE_FAILURES_NAME,
};
use docker_exporter::collector::samples::{GaugeChange, GaugeValue};
use docker_exporter::collector::trackers::{
    is_measurable, is_nameable, ContainerAction, ContainerEvent, ContainerTracker, ImageTracker,
    VolumeTracker,
};
use docker_exporter::docker::{
    BlkioServiceBytesStat, BlkioStats, Container, ContainerInspect, ContainerState, ContainerStats,
    CpuStats, CpuUsage, DockerError, Image, MemoryStats, Network, Volume, VolumeUsage,
};
use docker_exporter::string_map::StringMap;

type Row = (Gauge, Vec<String>, Option<GaugeValue>);

fn rows(changes: &[GaugeChange]) -> Vec<Row> {
    changes
        .iter()
        .map(|change| match change {
            GaugeChange::Publish {
                gauge,
                labels,
                value,
            } => (*gauge, labels.clone(), Some(*value)),
            GaugeChange::Withdraw { gauge, labels } => (*gauge, labels.clone(), None),
        })
        .collect()
}

fn whole(gauge: Gauge, labels: &[&str], n: u64) -> Row {
    (gauge, owned(labels), Some(GaugeValue::Whole(n)))
}

fn gone(gauge: Gauge, labels: &[&str]) -> Row {
    (gauge, owned(labels), None)
}

fn owned(labels: &[&str]) -> Vec<String> {
    labels.iter().map(|label| (*label).to_owned()).collect()
}

fn string_map<V>(entries: Vec<(&str, V)>) -> StringMap<V> {
    let mut map = StringMap::new();
    for (key, value) in entries {
        map.insert(key.to_owned(), value);
    }
    map
}

fn container(id: &str, names: &[&str]) -> Container {
    Container {
        id: id.to_owned(),
        names: owned(names),
    }
}

fn shown(id: &str, names: &[&str]) -> String {
    let c = container(id, names);
    assert!(is_nameable(&c));
    ContainerTracker::display_name(&c).to_owned()
}

fn web() -> ContainerTracker {
    ContainerTracker::new(container("0123456789abcdef", &["/web"]))
}

fn inspect(running: bool, restarting: bool, started_at: &str) -> ContainerInspect {
    ContainerInspect {
        state: ContainerState {
            running,
            restarting,
            started_at: started_at.to_owned(),
        },
        restart_count: 5,
    }
}

fn stats() -> ContainerStats {
    ContainerStats {
        cpu_stats: CpuStats {
            cpu_usage: CpuUsage { total_usage: 11 },
            system_cpu_usage: 22,
        },
        memory_stats: MemoryStats {
            stats: StringMap::new(),
            usage: 1000,
        },
        networks: StringMap::new(),
        blkio_stats: BlkioStats::default(),
    }
}

fn value_of(changes: &[GaugeChange], gauge: Gauge) -> Option<GaugeValue> {
    rows(changes)
        .into_iter()
        .find(|row| row.0 == gauge)
        .and_then(|row| row.2)
}

fn started(text: &str) -> Option<GaugeValue> {
    let step = web().update(ContainerEvent::Inspected(Ok(inspect(true, false, text))));
    value_of(&step.changes, Gauge::ContainerStartTime)
}

fn blkio(op: &str, value: u64) -> BlkioServiceBytesStat {
    BlkioServiceBytesStat {
        op: op.to_owned(),
        value,
    }
}

#[test]
fn a_container_is_shown_under_its_first_name_without_slashes() {
    let id = "0123456789abcdef";
    assert_eq!(shown(id, &["/web", "/other"]), "web");
    assert_eq!(shown(id, &["//web/db"]), "web/db");
    assert_eq!(shown(id, &["web"]), "web");
    assert_eq!(shown(id, &[" /web "]), " /web ");
    assert_eq!(shown(id, &["/web "]), "web ");
    assert_eq!(shown(id, &["//"]), "");
    assert_eq!(shown(id, &["\u{e9}"]), "\u{e9}");
}

#[test]
fn a_nameless_container_is_shown_under_its_identifier() {
    let id = "0123456789abcdef";
    assert_eq!(shown(id, &[]), "0123456789ab");
    assert_eq!(shown(id, &["/"]), "0123456789ab");
    assert_eq!(shown(id, &["  / "]), "0123456789ab");
    assert_eq!(shown(id, &["", "/web"]), "0123456789ab");
    assert_eq!(shown("0123456789ab", &[]), "0123456789ab");
    assert_eq!(shown("\u{e9}0123456789", &[]), "\u{e9}0123456789");
}

#[test]
fn an_identifier_is_cut_between_characters_only() {
    assert!(!is_nameable(&container("0123456789a", &[])));
    assert!(!is_nameable(&container("0123456789a\u{e9}", &[])));
    assert!(is_nameable(&container("0123456789\u{e9}", &[])));
    assert!(is_nameable(&container("0123456789a", &["/web"])));
}

#[test]
fn a_tracker_keeps_identifier_and_name() {
    let tracker = web();
    assert_eq!(tracker.id, "0123456789abcdef");
    assert_eq!(tracker.labels(), vec!["web"]);
}

#[test]
fn all_samples_of_a_container_go_with_it() {
    let labels = ["web"];
    assert_eq!(
        rows(&web().withdraw()),
        vec![
            gone(Gauge::ContainerCpuUsage, &labels),
            gone(Gauge::ContainerCpuCapacity, &labels),
            gone(Gauge::ContainerMemoryUsage, &labels),
            gone(Gauge::ContainerRestartCount, &labels),
            gone(Gauge::ContainerRunningState, &labels),
            gone(Gauge::ContainerStartTime, &labels),
            gone(Gauge::ContainerBytesIn, &labels),
            gone(Gauge::ContainerBytesOut, &labels),
            gone(Gauge::ContainerBytesRead, &labels),
            gone(Gauge::ContainerBytesWritten, &labels),
        ]
    );
}

#[test]
fn inspecting_tells_whether_a_container_runs() {
    let labels = ["web"];
    assert_eq!(
        rows(&web().inspected(&inspect(true, true, ""), None)),
        vec![
            whole(Gauge::ContainerRunningState, &labels, 1),
            whole(Gauge::ContainerRestartCount, &labels, 5),
        ]
    );
    assert_eq!(
        rows(&web().inspected(&inspect(false, true, ""), Some(9))),
        vec![
            (
                Gauge::ContainerRunningState,
                owned(&labels),
                Some(GaugeValue::Half)
            ),
            whole(Gauge::ContainerRestartCount, &labels, 5),
            whole(Gauge::ContainerStartTime, &labels, 9),
            whole(Gauge::ContainerMemoryUsage, &labels, 0),
        ]
    );
    assert_eq!(
        rows(&web().inspected(&inspect(false, false, ""), Some(0))),
        vec![
            whole(Gauge::ContainerRunningState, &labels, 0),
            whole(Gauge::ContainerRestartCount, &labels, 5),
            whole(Gauge::ContainerMemoryUsage, &labels, 0),
        ]
    );
}

#[test]
fn start_times_are_read_as_rfc_3339_lays_down() {
    assert_eq!(
        started("2015-05-15T00:00:00Z"),
        Some(GaugeValue::Whole(1431648000))
    );
    assert_eq!(
        started("2015-05-15T02:00:00.123456789+02:00"),
        Some(GaugeValue::Whole(1431648000))
    );
    assert_eq!(
        started("1970-01-01T00:00:01Z"),
        Some(GaugeValue::Whole(1))
    );
}

#[test]
fn what_is_no_start_time_is_left_out() {
    assert_eq!(started(""), None);
    assert_eq!(started("yesterday"), None);
    assert_eq!(started("2015-05-15T00:00:00"), None);
    assert_eq!(started("0001-01-01T00:00:00Z"), None);
    assert_eq!(started("1970-01-01T00:00:00Z"), None);
    assert_eq!(started("1969-12-31T23:59:59Z"), None);
}

#[test]
fn inactive_file_contents_are_no_memory_in_use() {
    let mut s = stats();
    assert_eq!(
        value_of(&web().measured(&s), Gauge::ContainerMemoryUsage),
        Some(GaugeValue::Whole(1000))
    );
    s.memory_stats.stats = string_map(vec![("inactive_file", 300u64), ("cache", 900u64)]);
    assert_eq!(
        value_of(&web().measured(&s), Gauge::ContainerMemoryUsage),
        Some(GaugeValue::Whole(700))
    );
    s.memory_stats.stats = string_map(vec![("inactive_file", 300u64), ("total_inactive_file", 40)]);
    assert_eq!(
        value_of(&web().measured(&s), Gauge::ContainerMemoryUsage),
        Some(GaugeValue::Whole(960))
    );
}

#[test]
fn traffic_is_summed_over_interfaces_and_entries() {
    let mut s = stats();
    s.networks = string_map(vec![
        (
            "eth0",
            Network {
                rx_bytes: 1,
                tx_bytes: 10,
            },
        ),
        (
            "eth1",
            Network {
                rx_bytes: 2,
                tx_bytes: 20,
            },
        ),
    ]);
    s.blkio_stats.io_service_bytes_recursive = vec![
        blkio("Read", 100),
        blkio("WRITE", 1000),
        blkio("read", 200),
        blkio("write", 2000),
        blkio("Sync", 7),
        blkio("reads", 9),
    ];
    let labels = ["web"];
    assert!(is_measurable(&s));
    assert_eq!(
        rows(&web().measured(&s)),
        vec![
            whole(Gauge::ContainerCpuUsage, &labels, 11),
            whole(Gauge::ContainerCpuCapacity, &labels, 22),
            whole(Gauge::ContainerMemoryUsage, &labels, 1000),
            whole(Gauge::ContainerBytesIn, &labels, 3),
            whole(Gauge::ContainerBytesOut, &labels, 30),
            whole(Gauge::ContainerBytesRead, &labels, 300),
            whole(Gauge::ContainerBytesWritten, &labels, 3000),
        ]
    );
}

#[test]
fn numbers_that_do_not_fit_are_told_apart() {
    assert!(is_measurable(&stats()));

    let mut s = stats();
    s.memory_stats.stats = string_map(vec![("inactive_file", 1001u64)]);
    assert!(!is_measurable(&s));
    s.memory_stats.usage = 1001;
    assert!(is_measurable(&s));

    let mut s = stats();
    let network = |rx_bytes: u64, tx_bytes: u64| Network { rx_bytes, tx_bytes };
    s.networks = string_map(vec![("a", network(u64::MAX, 0)), ("b", network(0, u64::MAX))]);
    assert!(is_measurable(&s));
    s.networks = string_map(vec![("a", network(u64::MAX, 0)), ("b", network(1, 0))]);
    assert!(!is_measurable(&s));
    s.networks = string_map(vec![("a", network(0, u64::MAX)), ("b", network(0, 1))]);
    assert!(!is_measurable(&s));

    let mut s = stats();
    s.blkio_stats.io_service_bytes_recursive = vec![blkio("read", u64::MAX), blkio("write", 1)];
    assert!(is_measurable(&s));
    s.blkio_stats.io_service_bytes_recursive = vec![blkio("read", u64::MAX), blkio("Read", 1)];
    assert!(!is_measurable(&s));
    s.blkio_stats.io_service_bytes_recursive = vec![blkio("write", u64::MAX), blkio("Write", 1)];
    assert!(!is_measurable(&s));
}

#[test]
fn a_running_container_is_inspected_and_then_measured() {
    let step = web().update(ContainerEvent::Begin);
    assert!(step.changes.is_empty());
    assert!(matches!(step.action, ContainerAction::Inspect));

    let step = web().update(ContainerEvent::Inspected(Ok(inspect(true, false, ""))));
    assert_eq!(step.changes.len(), 2);
    assert!(matches!(step.action, ContainerAction::Measure));

    let step = web().update(ContainerEvent::Measured(Ok(stats())));
    assert_eq!(step.changes.len(), 7);
    assert!(matches!(step.action, ContainerAction::Finish(Ok(()))));
}

#[test]
fn a_container_that_does_not_run_is_not_measured() {
    let step = web().update(ContainerEvent::Inspected(Ok(inspect(false, true, ""))));
    assert_eq!(step.changes.len(), 3);
    assert!(matches!(step.action, ContainerAction::Finish(Ok(()))));
}

#[test]
fn the_update_of_a_container_fails_with_its_queries() {
    let error = || DockerError::Timeout {
        endpoint: "/x".to_owned(),
    };
    for event in [
        ContainerEvent::Inspected(Err(error())),
        ContainerEvent::Measured(Err(error())),
    ] {
        let step = web().update(event);
        assert!(step.changes.is_empty());
        match step.action {
            ContainerAction::Finish(Err(e)) => assert_eq!(e.message(), "/x timed out."),
            _ => panic!("no failure"),
        }
    }
}

#[test]
fn updates_of_a_container_change_its_samples_only() {
    let first = rows(&web().measured(&stats()));
    let other = ContainerTracker::new(container("fedcba9876543210", &["/db"]));
    let second = rows(&other.measured(&stats()));
    assert!(first.iter().all(|row| row.1 == vec!["web"]));
    assert!(second.iter().all(|row| row.1 == vec!["db"]));
}

fn volume(labels: StringMap<String>) -> Volume {
    Volume {
        name: "data".to_owned(),
        driver: "local".to_owned(),
        labels,
        usage_data: VolumeUsage {
            ref_count: 2,
            size: 64,
        },
    }
}

#[test]
fn a_volume_carries_its_labels() {
    let (tracker, changes) = VolumeTracker::new(volume(string_map(vec![
        ("com.docker.volume.anonymous", "".to_owned()),
        ("com.docker.compose.project", "shop".to_owned()),
        ("com.docker.compose.service", "cache".to_owned()),
        ("other", "thing".to_owned()),
    ])));
    let labels = ["data", "true", "local", "shop", "cache"];
    assert_eq!(tracker.name, "data");
    assert_eq!(tracker.labels(), owned(&labels));
    assert_eq!(
        rows(&changes),
        vec![
            whole(Gauge::VolumeSize, &labels, 64),
            whole(Gauge::VolumeContainerCount, &labels, 2),
        ]
    );
}

#[test]
fn a_volume_without_labels_is_not_anonymous() {
    let (tracker, _) = VolumeTracker::new(volume(StringMap::new()));
    assert_eq!(tracker.labels(), vec!["data", "false", "local", "", ""]);
}

#[test]
fn a_volume_is_updated_and_goes_under_the_labels_it_came_with() {
    let (tracker, _) = VolumeTracker::new(volume(StringMap::new()));
    let labels = ["data", "false", "local", "", ""];
    let mut later = volume(string_map(vec![(
        "com.docker.compose.project",
        "shop".to_owned(),
    )]));
    later.usage_data = VolumeUsage {
        ref_count: 3,
        size: 128,
    };
    let expected = vec![
        whole(Gauge::VolumeSize, &labels, 128),
        whole(Gauge::VolumeContainerCount, &labels, 3),
    ];
    assert_eq!(rows(&tracker.update(&later)), expected);
    assert_eq!(rows(&tracker.update_usage(&later.usage_data)), expected);
    assert_eq!(
        rows(&tracker.withdraw()),
        vec![
            gone(Gauge::VolumeSize, &labels),
            gone(Gauge::VolumeContainerCount, &labels),
        ]
    );
}

fn image(tags: &[&str]) -> Image {
    Image {
        id: "sha256:1".to_owned(),
        containers: 4,
        repo_tags: owned(tags),
        size: 512,
    }
}

#[test]
fn an_image_goes_by_its_first_real_tag() {
    let tag = |tags: &[&str]| ImageTracker::new(image(tags)).0.labels()[0].clone();
    assert_eq!(tag(&["a:1", "b:2"]), "a:1");
    assert_eq!(tag(&["<none>:<none>", "b:2"]), "b:2");
    assert_eq!(tag(&["a:<none>", "<none>:1"]), "sha256:1");
    assert_eq!(tag(&[]), "sha256:1");
    assert_eq!(tag(&["none"]), "none");
}

#[test]
fn an_image_is_published_and_withdrawn() {
    let (tracker, changes) = ImageTracker::new(image(&["a:1"]));
    assert_eq!(tracker.id, "sha256:1");
    assert_eq!(
        rows(&changes),
        vec![
            whole(Gauge::ImageContainerCount, &["a:1"], 4),
            whole(Gauge::ImageSize, &["a:1"], 512),
        ]
    );
    let mut later = image(&["z"]);
    later.containers = 6;
    later.size = 7;
    let expected = vec![
        whole(Gauge::ImageContainerCount, &["a:1"], 6),
        whole(Gauge::ImageSize, &["a:1"], 7),
    ];
    assert_eq!(rows(&tracker.update(&later)), expected);
    assert_eq!(rows(&tracker.update_values(6, 7)), expected);
    assert_eq!(
        rows(&tracker.withdraw()),
        vec![
            gone(Gauge::ImageContainerCount, &["a:1"]),
            gone(Gauge::ImageSize, &["a:1"]),
        ]
    );
}

#[test]
fn gauges_are_announced_in_order_under_names_of_their_own() {
    let all = definitions();
    assert_eq!(all.len(), 14);
    for (i, d) in all.iter().enumerate() {
        assert_eq!(d.gauge.index(), i);
        assert!(!d.help.is_empty());
    }
    let mut names: Vec<&str> = all.iter().map(|d| d.name).collect();
    names.push(PROBE_DURATION_NAME);
    names.push(PROBE_FAILURES_NAME);
    names.sort();
    names.dedup();
    assert_eq!(names.len(), 16);
    assert_eq!(all[2].name, "docker_container_memory_used_bytes");
    assert_eq!(all[2].help, "Memory usage of a container.");
    assert_eq!(all[2].labels, vec!["name"]);
    assert_eq!(
        all[10].labels,
        vec!["name", "anonymous", "driver", "compose_project", "service"]
    );
    assert_eq!(all[13].labels, vec!["tag"]);
}

#[test]
fn the_buckets_of_durations_double() {
    let buckets = prometheus::exponential_buckets(
        f64::from(PROBE_DURATION_FIRST_BUCKET),
        f64::from(PROBE_DURATION_BUCKET_FACTOR),
        PROBE_DURATION_BUCKETS,
    )
    .unwrap();
    assert_eq!(buckets, vec![1.0, 2.0, 4.0, 8.0, 16.0, 32.0, 64.0]);
}
