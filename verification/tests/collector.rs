//! Updates from the first query to the published samples.

use docker_exporter::collector::metrics::{
    definitions, PROBE_FAILURES_HELP, PROBE_FAILURES_NAME,
};
use docker_exporter::collector::samples::{GaugeChange, GaugeValue};
use docker_exporter::collector::trackers::{ContainerAction, ContainerEvent, ContainerTracker};
use docker_exporter::collector::{
    retain_active, Collector, DataQuery, DataReply, UpdateAction, UpdateEvent,
};
use docker_exporter::config::{Config, LevelFilter};
use docker_exporter::docker::{
    BlkioStats, Container, ContainerInspect, ContainerState, ContainerStats, CpuStats, CpuUsage,
    DataUsage, DockerError, DockerResult, Image, MemoryStats, Volume, VolumeUsage,
};
use docker_exporter::string_map::StringMap;
use prometheus::{Counter, Encoder, GaugeVec, Opts, Registry, TextEncoder};

struct MockDockerClient {
    data_usage: Option<DataUsage>,
    inspects: Vec<(String, ContainerInspect)>,
    stats: Vec<(String, ContainerStats)>,
}

fn missing<T>(what: &str) -> DockerResult<T> {
    Err(DockerError::Transport {
        endpoint: "mock".to_owned(),
        error: what.to_owned(),
    })
}

impl MockDockerClient {
    fn listing(usage: DataUsage) -> Self {
        MockDockerClient {
            data_usage: Some(usage),
            inspects: Vec::new(),
            stats: Vec::new(),
        }
    }

    fn failing() -> Self {
        MockDockerClient {
            data_usage: None,
            inspects: Vec::new(),
            stats: Vec::new(),
        }
    }

    fn list_containers(&self) -> DockerResult<Vec<Container>> {
        match &self.data_usage {
            Some(usage) => Ok(usage.containers.clone()),
            None => missing("missing mocked containers"),
        }
    }

    fn get_data_usage(&self) -> DockerResult<DataUsage> {
        match &self.data_usage {
            Some(usage) => Ok(usage.clone()),
            None => missing("missing mocked data usage"),
        }
    }

    fn inspect_container(&self, id: &str) -> DockerResult<ContainerInspect> {
        match self.inspects.iter().find(|entry| entry.0 == id) {
            Some(entry) => Ok(entry.1.clone()),
            None => missing("inspect not mocked"),
        }
    }

    fn get_container_stats(&self, id: &str) -> DockerResult<ContainerStats> {
        match self.stats.iter().find(|entry| entry.0 == id) {
            Some(entry) => Ok(entry.1.clone()),
            None => missing("stats not mocked"),
        }
    }
}

struct Exporter {
    collector: Collector,
    registry: Registry,
    failures: Counter,
    gauges: Vec<GaugeVec>,
}

impl Exporter {
    fn new() -> Self {
        let registry = Registry::new();
        let failures = Counter::new(PROBE_FAILURES_NAME, PROBE_FAILURES_HELP).unwrap();
        registry.register(Box::new(failures.clone())).unwrap();
        let mut gauges = Vec::new();
        for d in definitions() {
            let gauge = GaugeVec::new(Opts::new(d.name, d.help), &d.labels).unwrap();
            registry.register(Box::new(gauge.clone())).unwrap();
            gauges.push(gauge);
        }
        Exporter {
            collector: Collector::new(),
            registry,
            failures,
            gauges,
        }
    }

    fn apply(&self, changes: &[GaugeChange]) {
        for change in changes {
            match change {
                GaugeChange::Publish {
                    gauge,
                    labels,
                    value,
                } => {
                    let number: f64 = match value {
                        GaugeValue::Whole(n) => *n as f64,
                        GaugeValue::Half => 0.5,
                    };
                    self.gauges[gauge.index()]
                        .with_label_values(labels)
                        .set(number);
                }
                GaugeChange::Withdraw { gauge, labels } => {
                    let _ = self.gauges[gauge.index()].remove_label_values(labels);
                }
            }
        }
    }

    fn update_container(&self, docker: &MockDockerClient, id: &str) -> DockerResult<()> {
        let tracker: &ContainerTracker = self.collector.container_trackers().get(id).unwrap();
        let mut event = ContainerEvent::Begin;
        loop {
            let step = tracker.update(event);
            self.apply(&step.changes);
            event = match step.action {
                ContainerAction::Inspect => {
                    ContainerEvent::Inspected(docker.inspect_container(&tracker.id))
                }
                ContainerAction::Measure => {
                    ContainerEvent::Measured(docker.get_container_stats(&tracker.id))
                }
                ContainerAction::Finish(result) => return result,
            };
        }
    }

    fn update(&mut self, docker: &MockDockerClient, config: &Config) -> bool {
        let mut event = UpdateEvent::Begin;
        loop {
            if let UpdateEvent::Data(Ok(reply)) = &event {
                let containers = match reply {
                    DataReply::Containers(containers) => containers,
                    DataReply::DataUsage(usage) => &usage.containers,
                };
                assert!(self.collector.can_track(containers));
            }
            match self.collector.update(config, event) {
                UpdateAction::Query(DataQuery::DataUsage) => {
                    event = UpdateEvent::Data(docker.get_data_usage().map(DataReply::DataUsage));
                }
                UpdateAction::Query(DataQuery::Containers) => {
                    event = UpdateEvent::Data(docker.list_containers().map(DataReply::Containers));
                }
                UpdateAction::UpdateContainers {
                    changes,
                    volumes,
                    images,
                } => {
                    self.apply(&changes);
                    let mut results: Vec<DockerResult<()>> = Vec::new();
                    for id in self.container_ids() {
                        results.push(self.update_container(docker, &id));
                    }
                    event = UpdateEvent::ContainersUpdated {
                        results,
                        volumes,
                        images,
                    };
                }
                UpdateAction::Finish {
                    updated,
                    failures,
                    changes,
                } => {
                    self.failures.inc_by(failures.len() as f64);
                    self.apply(&changes);
                    return updated;
                }
            }
        }
    }

    fn container_ids(&self) -> Vec<String> {
        let trackers = self.collector.container_trackers();
        (0..trackers.len())
            .map(|i: usize| trackers.key(i).clone())
            .collect()
    }

    fn text(&self) -> String {
        let mut buffer = Vec::new();
        TextEncoder::new()
            .encode(&self.registry.gather(), &mut buffer)
            .unwrap();
        String::from_utf8(buffer).unwrap()
    }

    fn lines(&self, prefix: &str) -> Vec<String> {
        let mut lines: Vec<String> = self
            .text()
            .lines()
            .filter(|line| line.starts_with(prefix))
            .map(str::to_owned)
            .collect();
        lines.sort();
        lines
    }
}

fn assert_metric_line(
    lines: &[String],
    metric_name: &str,
    volume_name: &str,
    value: &str,
    expected_labels: &[(&str, &str)],
) {
    let line = lines
        .iter()
        .find(|line| {
            line.starts_with(metric_name)
                && line.contains(format!("name=\"{volume_name}\"").as_str())
        })
        .unwrap_or_else(|| panic!("missing metric {metric_name} for volume {volume_name}"));

    for (key, expected) in expected_labels {
        assert!(
            line.contains(format!("{key}=\"{expected}\"").as_str()),
            "metric line missing {key}={expected}: {line}"
        );
    }

    assert!(
        line.ends_with(format!(" {value}").as_str()),
        "metric line has unexpected value: {line}"
    );
}

fn string_map<V>(entries: Vec<(&str, V)>) -> StringMap<V> {
    let mut map = StringMap::new();
    for (key, value) in entries {
        map.insert(key.to_owned(), value);
    }
    map
}

fn settings(images: bool, volumes: bool) -> Config {
    Config {
        port: 9417,
        min_log_level: LevelFilter::Off,
        collect_image_metrics: images,
        collect_volume_metrics: volumes,
    }
}

fn volume(name: &str, size: u64, ref_count: u32) -> Volume {
    Volume {
        name: name.to_owned(),
        driver: "local".to_owned(),
        labels: StringMap::new(),
        usage_data: VolumeUsage { ref_count, size },
    }
}

fn image(id: &str, tags: &[&str], containers: u32, size: u64) -> Image {
    Image {
        id: id.to_owned(),
        containers,
        repo_tags: tags.iter().map(|tag| (*tag).to_owned()).collect(),
        size,
    }
}

fn container(id: &str, name: &str) -> Container {
    Container {
        id: id.to_owned(),
        names: vec![name.to_owned()],
    }
}

fn inspect(running: bool, restarts: u32, started_at: &str) -> ContainerInspect {
    ContainerInspect {
        state: ContainerState {
            running,
            restarting: false,
            started_at: started_at.to_owned(),
        },
        restart_count: restarts,
    }
}

fn stats(cpu: u64, memory: u64) -> ContainerStats {
    ContainerStats {
        cpu_stats: CpuStats {
            cpu_usage: CpuUsage { total_usage: cpu },
            system_cpu_usage: 1000,
        },
        memory_stats: MemoryStats {
            stats: StringMap::new(),
            usage: memory,
        },
        networks: StringMap::new(),
        blkio_stats: BlkioStats::default(),
    }
}

fn usage(containers: Vec<Container>, volumes: Vec<Volume>, images: Vec<Image>) -> DataUsage {
    DataUsage {
        images,
        containers,
        volumes,
    }
}

fn mocked_volumes() -> DataUsage {
    usage(
        Vec::new(),
        vec![
            Volume {
                name: "anon-volume".to_owned(),
                driver: "local".to_owned(),
                labels: string_map(vec![("com.docker.volume.anonymous", "".to_owned())]),
                usage_data: VolumeUsage {
                    ref_count: 0,
                    size: 0,
                },
            },
            Volume {
                name: "postgres_data".to_owned(),
                driver: "local".to_owned(),
                labels: string_map(vec![
                    ("com.docker.compose.project", "billing".to_owned()),
                    ("com.docker.compose.service", "db".to_owned()),
                ]),
                usage_data: VolumeUsage {
                    ref_count: 1,
                    size: 2048,
                },
            },
        ],
        Vec::new(),
    )
}

#[test]
fn tests_collector_uses_mocked_volume_metadata_without_socket_access() {
    let docker = MockDockerClient::listing(mocked_volumes());
    let mut exporter = Exporter::new();
    let config = Config {
        port: 9417,
        min_log_level: LevelFilter::Off,
        collect_image_metrics: false,
        collect_volume_metrics: true,
    };

    assert!(exporter.update(&docker, &config));

    let metrics = exporter.lines("docker_volume_");
    assert_metric_line(
        &metrics,
        "docker_volume_size",
        "anon-volume",
        "0",
        &[
            ("anonymous", "true"),
            ("driver", "local"),
            ("compose_project", ""),
            ("service", ""),
        ],
    );
    assert_metric_line(
        &metrics,
        "docker_volume_container_count",
        "anon-volume",
        "0",
        &[
            ("anonymous", "true"),
            ("driver", "local"),
            ("compose_project", ""),
            ("service", ""),
        ],
    );
    assert_metric_line(
        &metrics,
        "docker_volume_size",
        "postgres_data",
        "2048",
        &[
            ("anonymous", "false"),
            ("driver", "local"),
            ("compose_project", "billing"),
            ("service", "db"),
        ],
    );
    assert_metric_line(
        &metrics,
        "docker_volume_container_count",
        "postgres_data",
        "1",
        &[
            ("anonymous", "false"),
            ("driver", "local"),
            ("compose_project", "billing"),
            ("service", "db"),
        ],
    );
}

#[test]
fn collector_collector_uses_mocked_volume_metadata_without_socket_access() {
    let docker = MockDockerClient::listing(usage(
        Vec::new(),
        vec![
            Volume {
                name: "anon-volume".to_owned(),
                driver: "local".to_owned(),
                labels: string_map(vec![("com.docker.volume.anonymous", "".to_owned())]),
                usage_data: VolumeUsage {
                    ref_count: 0,
                    size: 0,
                },
            },
            Volume {
                name: "postgres_data".to_owned(),
                driver: "local".to_owned(),
                labels: string_map(vec![
                    ("com.docker.compose.project", "billing".to_owned()),
                    ("com.docker.compose.service", "db".to_owned()),
                ]),
                usage_data: VolumeUsage {
                    ref_count: 1,
                    size: 2048,
                },
            },
        ],
        Vec::new(),
    ));
    let mut exporter = Exporter::new();
    let config = Config {
        port: 9417,
        min_log_level: LevelFilter::Off,
        collect_image_metrics: false,
        collect_volume_metrics: true,
    };

    assert!(exporter.update(&docker, &config));

    let metrics = exporter.lines("docker_volume_");
    assert_metric_line(
        &metrics,
        "docker_volume_size",
        "anon-volume",
        "0",
        &[
            ("anonymous", "true"),
            ("driver", "local"),
            ("compose_project", ""),
            ("service", ""),
        ],
    );
    assert_metric_line(
        &metrics,
        "docker_volume_container_count",
        "anon-volume",
        "0",
        &[
            ("anonymous", "true"),
            ("driver", "local"),
            ("compose_project", ""),
            ("service", ""),
        ],
    );
    assert_metric_line(
        &metrics,
        "docker_volume_size",
        "postgres_data",
        "2048",
        &[
            ("anonymous", "false"),
            ("driver", "local"),
            ("compose_project", "billing"),
            ("service", "db"),
        ],
    );
    assert_metric_line(
        &metrics,
        "docker_volume_container_count",
        "postgres_data",
        "1",
        &[
            ("anonymous", "false"),
            ("driver", "local"),
            ("compose_project", "billing"),
            ("service", "db"),
        ],
    );
}

#[test]
fn a_failed_query_changes_nothing_and_counts_once() {
    let mut exporter = Exporter::new();
    let config = settings(true, true);
    assert!(exporter.update(&MockDockerClient::listing(mocked_volumes()), &config));
    let before = exporter.lines("docker_volume_");
    assert_eq!(before.len(), 4);

    assert!(!exporter.update(&MockDockerClient::failing(), &config));
    assert_eq!(exporter.lines("docker_volume_"), before);
    assert_eq!(exporter.failures.get(), 1.0);

    match exporter
        .collector
        .update(&config, UpdateEvent::Data(missing("gone")))
    {
        UpdateAction::Finish {
            updated,
            failures,
            changes,
        } => {
            assert!(!updated);
            assert_eq!(failures.len(), 1);
            assert_eq!(failures[0].message(), "mock gone");
            assert!(changes.is_empty());
        }
        _ => panic!("the update goes on"),
    }
}

#[test]
fn every_failed_container_counts() {
    let mut docker = MockDockerClient::listing(usage(
        vec![
            container("aaaaaaaaaaaaaa", "/a"),
            container("bbbbbbbbbbbbbb", "/bb"),
            container("cccccccccccccc", "/cc"),
        ],
        Vec::new(),
        Vec::new(),
    ));
    docker
        .inspects
        .push(("bbbbbbbbbbbbbb".to_owned(), inspect(false, 0, "")));
    let mut exporter = Exporter::new();
    assert!(exporter.update(&docker, &settings(false, false)));
    assert_eq!(exporter.failures.get(), 2.0);
    assert_eq!(
        exporter.lines("docker_container_"),
        vec![
            "docker_container_memory_used_bytes{name=\"bb\"} 0",
            "docker_container_restart_count{name=\"bb\"} 0",
            "docker_container_running_state{name=\"bb\"} 0",
        ]
    );
}

#[test]
fn every_failure_counts_and_keeps_its_place() {
    let mut collector = Collector::new();
    let action = collector.update(
        &settings(false, false),
        UpdateEvent::ContainersUpdated {
            results: vec![Ok(()), missing("first"), Ok(()), missing("second")],
            volumes: Vec::new(),
            images: Vec::new(),
        },
    );
    match action {
        UpdateAction::Finish {
            updated, failures, ..
        } => {
            assert!(updated);
            let messages: Vec<String> = failures.iter().map(|f| f.message()).collect();
            assert_eq!(messages, vec!["mock first", "mock second"]);
        }
        _ => panic!("the update goes on"),
    }
}

#[test]
fn settings_choose_the_query() {
    assert_eq!(
        Collector::query(&settings(false, false)),
        DataQuery::Containers
    );
    assert_eq!(
        Collector::query(&settings(true, false)),
        DataQuery::DataUsage
    );
    assert_eq!(
        Collector::query(&settings(false, true)),
        DataQuery::DataUsage
    );
    assert_eq!(
        Collector::query(&settings(true, true)),
        DataQuery::DataUsage
    );
}

#[test]
fn a_listing_of_containers_brings_nothing_else() {
    let data = Collector::collect_data(DataReply::Containers(vec![container("x", "/name")]));
    assert_eq!(data.containers.len(), 1);
    assert_eq!(data.containers[0].id, "x");
    assert!(data.volumes.is_empty());
    assert!(data.images.is_empty());

    let data = Collector::collect_data(DataReply::DataUsage(usage(
        vec![container("x", "/name")],
        vec![volume("v", 1, 2)],
        vec![image("i", &[], 3, 4)],
    )));
    assert_eq!(data.containers[0].id, "x");
    assert_eq!(data.volumes[0].name, "v");
    assert_eq!(data.images[0].id, "i");
}

#[test]
fn nothing_is_published_at_first() {
    let exporter = Exporter::new();
    assert!(exporter.lines("docker_container_").is_empty());
    assert!(exporter.lines("docker_volume_").is_empty());
    assert!(exporter.lines("docker_image_").is_empty());
    assert_eq!(exporter.collector.container_trackers().len(), 0);
}

#[test]
fn a_running_container_is_published() {
    let id = "0123456789abcdef";
    let mut docker = MockDockerClient::listing(usage(
        vec![container(id, "/web")],
        Vec::new(),
        Vec::new(),
    ));
    docker.inspects.push((
        id.to_owned(),
        inspect(true, 3, "2015-05-15T00:00:00Z"),
    ));
    docker.stats.push((id.to_owned(), stats(7, 4096)));
    let mut exporter = Exporter::new();
    assert!(exporter.update(&docker, &settings(false, false)));
    assert_eq!(
        exporter.lines("docker_container_"),
        vec![
            "docker_container_cpu_capacity_total{name=\"web\"} 1000",
            "docker_container_cpu_used_total{name=\"web\"} 7",
            "docker_container_disk_read_bytes{name=\"web\"} 0",
            "docker_container_disk_write_bytes{name=\"web\"} 0",
            "docker_container_memory_used_bytes{name=\"web\"} 4096",
            "docker_container_network_in_bytes{name=\"web\"} 0",
            "docker_container_network_out_bytes{name=\"web\"} 0",
            "docker_container_restart_count{name=\"web\"} 3",
            "docker_container_running_state{name=\"web\"} 1",
            "docker_container_start_time_seconds{name=\"web\"} 1431648000",
        ]
    );
    assert_eq!(exporter.failures.get(), 0.0);
}

#[test]
fn a_container_that_stops_uses_no_memory_and_keeps_its_start_time() {
    let id = "0123456789abcdef";
    let mut docker = MockDockerClient::listing(usage(
        vec![container(id, "/web")],
        Vec::new(),
        Vec::new(),
    ));
    docker.inspects.push((
        id.to_owned(),
        inspect(true, 0, "2015-05-15T00:00:00Z"),
    ));
    docker.stats.push((id.to_owned(), stats(7, 4096)));
    let mut exporter = Exporter::new();
    assert!(exporter.update(&docker, &settings(false, false)));

    docker.inspects = vec![(id.to_owned(), inspect(false, 0, "0001-01-01T00:00:00Z"))];
    assert!(exporter.update(&docker, &settings(false, false)));
    assert_eq!(
        exporter.lines("docker_container_memory"),
        vec!["docker_container_memory_used_bytes{name=\"web\"} 0"]
    );
    assert_eq!(
        exporter.lines("docker_container_start"),
        vec!["docker_container_start_time_seconds{name=\"web\"} 1431648000"]
    );
    assert_eq!(
        exporter.lines("docker_container_cpu_used"),
        vec!["docker_container_cpu_used_total{name=\"web\"} 7"]
    );
}

#[test]
fn a_container_that_is_gone_leaves_nothing_behind() {
    let mut docker = MockDockerClient::listing(usage(
        vec![
            container("aaaaaaaaaaaaaa", "/one"),
            container("bbbbbbbbbbbbbb", "/two"),
        ],
        Vec::new(),
        Vec::new(),
    ));
    for id in ["aaaaaaaaaaaaaa", "bbbbbbbbbbbbbb"] {
        docker.inspects.push((
            id.to_owned(),
            inspect(true, 0, "2015-05-15T00:00:00Z"),
        ));
        docker.stats.push((id.to_owned(), stats(1, 2)));
    }
    let mut exporter = Exporter::new();
    assert!(exporter.update(&docker, &settings(false, false)));
    assert_eq!(exporter.lines("docker_container_").len(), 20);

    docker.data_usage = Some(usage(
        vec![container("bbbbbbbbbbbbbb", "/two")],
        Vec::new(),
        Vec::new(),
    ));
    assert!(exporter.update(&docker, &settings(false, false)));
    let lines = exporter.lines("docker_container_");
    assert_eq!(lines.len(), 10);
    assert!(lines.iter().all(|line| line.contains("name=\"two\"")));
    assert_eq!(exporter.container_ids(), vec!["bbbbbbbbbbbbbb"]);
}

#[test]
fn a_container_keeps_its_name_while_it_is_listed() {
    let id = "aaaaaaaaaaaaaa";
    let mut exporter = Exporter::new();
    let listed = |name: &str| {
        MockDockerClient::listing(usage(vec![container(id, name)], Vec::new(), Vec::new()))
    };
    exporter.update(&listed("/before"), &settings(false, false));
    exporter.update(&listed("/after"), &settings(false, false));
    let labels = exporter.collector.container_trackers().value(0).labels();
    assert_eq!(labels, vec!["before"]);

    exporter.update(
        &MockDockerClient::listing(usage(Vec::new(), Vec::new(), Vec::new())),
        &settings(false, false),
    );
    exporter.update(&listed("/after"), &settings(false, false));
    let labels = exporter.collector.container_trackers().value(0).labels();
    assert_eq!(labels, vec!["after"]);
}

#[test]
fn the_first_listing_of_a_container_counts() {
    let mut collector = Collector::new();
    let changes = collector.sync_container_trackers(vec![
        container("aaaaaaaaaaaaaa", "/first"),
        container("aaaaaaaaaaaaaa", "/second"),
    ]);
    assert!(changes.is_empty());
    assert_eq!(collector.container_trackers().len(), 1);
    assert_eq!(
        collector.container_trackers().value(0).labels(),
        vec!["first"]
    );
}

#[test]
fn containers_without_a_name_need_an_identifier_of_twelve_bytes() {
    let mut collector = Collector::new();
    let short = vec![container("short", "/")];
    assert!(!collector.can_track(&short));
    assert!(collector.can_track(&vec![container("short", "/name")]));
    assert!(collector.can_track(&vec![container("0123456789ab", "")]));
    collector.sync_container_trackers(vec![container("short", "/name")]);
    assert!(collector.can_track(&short));
    assert!(collector.can_track(&vec![
        container("brief", "/name"),
        container("brief", "/"),
    ]));
    assert!(!collector.can_track(&vec![
        container("brief", "/"),
        container("brief", "/name"),
    ]));
}

#[test]
fn volumes_and_images_are_left_alone_unless_collected() {
    let everything = || {
        MockDockerClient::listing(usage(
            Vec::new(),
            vec![volume("v", 10, 1)],
            vec![image("i", &["t"], 2, 20)],
        ))
    };
    let mut exporter = Exporter::new();
    exporter.update(&everything(), &settings(false, false));
    assert!(exporter.lines("docker_volume_").is_empty());
    assert!(exporter.lines("docker_image_").is_empty());

    exporter.update(&everything(), &settings(true, false));
    assert!(exporter.lines("docker_volume_").is_empty());
    assert_eq!(
        exporter.lines("docker_image_"),
        vec![
            "docker_image_container_count{tag=\"t\"} 2",
            "docker_image_size{tag=\"t\"} 20",
        ]
    );

    exporter.update(&everything(), &settings(false, true));
    assert_eq!(exporter.lines("docker_volume_").len(), 2);
    assert_eq!(exporter.lines("docker_image_").len(), 2);
}

#[test]
fn exactly_the_listed_volumes_are_published() {
    let mut exporter = Exporter::new();
    let config = settings(false, true);
    let listed = |volumes: Vec<Volume>| {
        MockDockerClient::listing(usage(Vec::new(), volumes, Vec::new()))
    };
    exporter.update(&listed(vec![volume("a", 1, 1), volume("b", 2, 2)]), &config);
    exporter.update(&listed(vec![volume("b", 5, 6), volume("c", 3, 3)]), &config);
    let labels = "anonymous=\"false\",compose_project=\"\",driver=\"local\"";
    assert_eq!(
        exporter.lines("docker_volume_"),
        vec![
            format!("docker_volume_container_count{{{labels},name=\"b\",service=\"\"}} 6"),
            format!("docker_volume_container_count{{{labels},name=\"c\",service=\"\"}} 3"),
            format!("docker_volume_size{{{labels},name=\"b\",service=\"\"}} 5"),
            format!("docker_volume_size{{{labels},name=\"c\",service=\"\"}} 3"),
        ]
    );
}

#[test]
fn a_volume_keeps_its_labels_while_it_is_listed() {
    let mut exporter = Exporter::new();
    let config = settings(false, true);
    let mut later = volume("a", 8, 9);
    later.driver = "nfs".to_owned();
    exporter.update(
        &MockDockerClient::listing(usage(Vec::new(), vec![volume("a", 1, 1)], Vec::new())),
        &config,
    );
    exporter.update(
        &MockDockerClient::listing(usage(Vec::new(), vec![later], Vec::new())),
        &config,
    );
    let lines = exporter.lines("docker_volume_");
    assert_eq!(lines.len(), 2);
    assert!(lines.iter().all(|line| line.contains("driver=\"local\"")));
    assert!(lines[0].ends_with(" 9"));
    assert!(lines[1].ends_with(" 8"));
}

#[test]
fn of_two_listings_of_a_volume_the_labels_of_the_first_and_the_use_of_the_last_count() {
    let mut exporter = Exporter::new();
    let mut second = volume("a", 8, 9);
    second.driver = "nfs".to_owned();
    exporter.update(
        &MockDockerClient::listing(usage(
            Vec::new(),
            vec![volume("a", 1, 1), second],
            Vec::new(),
        )),
        &settings(false, true),
    );
    let lines = exporter.lines("docker_volume_");
    assert_eq!(lines.len(), 2);
    assert!(lines.iter().all(|line| line.contains("driver=\"local\"")));
    assert!(lines[1].ends_with(" 8"));
}

#[test]
fn exactly_the_listed_images_are_published() {
    let mut exporter = Exporter::new();
    let config = settings(true, false);
    let listed = |images: Vec<Image>| {
        MockDockerClient::listing(usage(Vec::new(), Vec::new(), images))
    };
    exporter.update(
        &listed(vec![image("1", &["a"], 1, 10), image("2", &["b"], 2, 20)]),
        &config,
    );
    exporter.update(
        &listed(vec![image("2", &["b"], 4, 40), image("3", &[], 3, 30)]),
        &config,
    );
    assert_eq!(
        exporter.lines("docker_image_"),
        vec![
            "docker_image_container_count{tag=\"3\"} 3",
            "docker_image_container_count{tag=\"b\"} 4",
            "docker_image_size{tag=\"3\"} 30",
            "docker_image_size{tag=\"b\"} 40",
        ]
    );
}

#[test]
fn of_two_images_with_one_tag_the_last_counts() {
    let mut exporter = Exporter::new();
    exporter.update(
        &MockDockerClient::listing(usage(
            Vec::new(),
            Vec::new(),
            vec![image("1", &["t"], 1, 10), image("2", &["t"], 2, 20)],
        )),
        &settings(true, false),
    );
    assert_eq!(
        exporter.lines("docker_image_"),
        vec![
            "docker_image_container_count{tag=\"t\"} 2",
            "docker_image_size{tag=\"t\"} 20",
        ]
    );
}

#[test]
fn a_listing_repeated_changes_nothing() {
    let mut exporter = Exporter::new();
    let config = settings(true, true);
    let docker = MockDockerClient::listing(usage(
        vec![container("aaaaaaaaaaaaaa", "/one")],
        vec![volume("v", 1, 2)],
        vec![image("i", &["t"], 3, 4)],
    ));
    assert!(exporter.update(&docker, &config));
    let before = exporter.lines("docker_volume_");
    let images = exporter.lines("docker_image_");
    assert!(exporter.update(&docker, &config));
    assert_eq!(exporter.lines("docker_volume_"), before);
    assert_eq!(exporter.lines("docker_image_"), images);
    assert_eq!(exporter.container_ids(), vec!["aaaaaaaaaaaaaa"]);
}

#[test]
fn listings_of_one_sort_leave_the_samples_of_the_others() {
    let mut exporter = Exporter::new();
    exporter.update(
        &MockDockerClient::listing(usage(
            Vec::new(),
            vec![volume("v", 1, 2)],
            vec![image("i", &["t"], 3, 4)],
        )),
        &settings(true, true),
    );
    let images = exporter.lines("docker_image_");
    let volumes = exporter.lines("docker_volume_");
    let changes = exporter.collector.sync_volume_trackers(Vec::new());
    exporter.apply(&changes);
    assert!(exporter.lines("docker_volume_").is_empty());
    assert_eq!(exporter.lines("docker_image_"), images);

    let changes = exporter
        .collector
        .sync_volume_trackers(vec![volume("v", 1, 2)]);
    exporter.apply(&changes);
    let changes = exporter.collector.sync_image_trackers(Vec::new());
    exporter.apply(&changes);
    assert!(exporter.lines("docker_image_").is_empty());
    assert_eq!(exporter.lines("docker_volume_"), volumes);
}

#[test]
fn trackers_stay_where_their_key_is_active() {
    let mut trackers = string_map(vec![("a", 1u8), ("b", 2u8), ("c", 3u8), ("d", 4u8)]);
    let active = vec![
        "c".to_owned(),
        "x".to_owned(),
        "a".to_owned(),
        "a".to_owned(),
    ];
    let gone: Vec<u8> = retain_active(&mut trackers, &active);
    assert_eq!(gone, vec![2u8, 4u8]);
    assert_eq!(trackers.len(), 2);
    assert_eq!(trackers.get("a"), Some(&1u8));
    assert_eq!(trackers.get("b"), None);
    assert_eq!(trackers.get("c"), Some(&3u8));
    assert!(retain_active(&mut trackers, &Vec::new()).len() == 2);
    assert_eq!(trackers.len(), 0);
}
