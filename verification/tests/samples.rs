//! Changes to samples, made to gauges one after the other.

use docker_exporter::collector::metrics::{definitions, Gauge};
use docker_exporter::collector::samples::{GaugeChange, GaugeValue};
use docker_exporter::collector::trackers::{ContainerEvent, ContainerTracker, ImageTracker};
use docker_exporter::collector::Collector;
use docker_exporter::docker::{Container, ContainerInspect, ContainerState, Image};
use prometheus::{Encoder, GaugeVec, Opts, Registry, TextEncoder};

struct Published {
    registry: Registry,
    gauges: Vec<GaugeVec>,
}

impl Published {
    fn nothing() -> Self {
        let registry = Registry::new();
        let mut gauges = Vec::new();
        for d in definitions() {
            let gauge = GaugeVec::new(Opts::new(d.name, d.help), &d.labels).unwrap();
            registry.register(Box::new(gauge.clone())).unwrap();
            gauges.push(gauge);
        }
        Published { registry, gauges }
    }

    fn after(changes: &[GaugeChange]) -> Vec<String> {
        let published = Published::nothing();
        published.apply(changes);
        published.lines()
    }

    fn apply(&self, changes: &[GaugeChange]) {
        for change in changes {
            match change {
                GaugeChange::Publish {
                    gauge,
                    labels,
                    value,
                } => {
                    let number: f64 = match value {
                        GaugeValue::Whole(n) => *n as f64,
                        GaugeValue::Half => 0.5,
                    };
                    self.gauges[gauge.index()]
                        .with_label_values(labels)
                        .set(number);
                }
                GaugeChange::Withdraw { gauge, labels } => {
                    let _ = self.gauges[gauge.index()].remove_label_values(labels);
                }
            }
        }
    }

    fn lines(&self) -> Vec<String> {
        let mut buffer = Vec::new();
        TextEncoder::new()
            .encode(&self.registry.gather(), &mut buffer)
            .unwrap();
        let mut lines: Vec<String> = String::from_utf8(buffer)
            .unwrap()
            .lines()
            .filter(|line| !line.starts_with('#'))
            .map(str::to_owned)
            .collect();
        lines.sort();
        lines
    }
}

fn publish(gauge: Gauge, label: &str, n: u64) -> GaugeChange {
    GaugeChange::Publish {
        gauge,
        labels: vec![label.to_owned()],
        value: GaugeValue::Whole(n),
    }
}

fn withdraw(gauge: Gauge, label: &str) -> GaugeChange {
    GaugeChange::Withdraw {
        gauge,
        labels: vec![label.to_owned()],
    }
}

fn container(id: &str, name: &str) -> Container {
    Container {
        id: id.to_owned(),
        names: vec![name.to_owned()],
    }
}

fn image(id: &str, tag: &str, size: u64) -> Image {
    Image {
        id: id.to_owned(),
        containers: 1,
        repo_tags: vec![tag.to_owned()],
        size,
    }
}

#[test]
fn the_last_change_to_a_sample_wins() {
    assert_eq!(
        Published::after(&[
            publish(Gauge::ImageSize, "a", 1),
            publish(Gauge::ImageSize, "a", 2),
        ]),
        vec!["docker_image_size{tag=\"a\"} 2"]
    );
    assert!(Published::after(&[
        publish(Gauge::ImageSize, "a", 1),
        withdraw(Gauge::ImageSize, "a"),
    ])
    .is_empty());
    assert_eq!(
        Published::after(&[
            withdraw(Gauge::ImageSize, "a"),
            publish(Gauge::ImageSize, "a", 3),
        ]),
        vec!["docker_image_size{tag=\"a\"} 3"]
    );
}

#[test]
fn samples_that_no_change_touches_stay() {
    let published = Published::nothing();
    published.apply(&[
        publish(Gauge::ImageSize, "a", 1),
        publish(Gauge::ContainerCpuUsage, "a", 5),
    ]);
    published.apply(&[
        publish(Gauge::ImageSize, "b", 2),
        withdraw(Gauge::ImageContainerCount, "a"),
    ]);
    assert_eq!(
        published.lines(),
        vec![
            "docker_container_cpu_used_total{name=\"a\"} 5",
            "docker_image_size{tag=\"a\"} 1",
            "docker_image_size{tag=\"b\"} 2",
        ]
    );
}

#[test]
fn changes_to_different_samples_commute() {
    assert_eq!(
        Published::after(&[
            publish(Gauge::ImageSize, "a", 1),
            publish(Gauge::ImageSize, "b", 2),
        ]),
        Published::after(&[
            publish(Gauge::ImageSize, "b", 2),
            publish(Gauge::ImageSize, "a", 1),
        ])
    );
}

#[test]
fn changes_may_be_made_in_parts() {
    let list = [
        publish(Gauge::ImageSize, "a", 1),
        withdraw(Gauge::ImageSize, "a"),
        publish(Gauge::ImageSize, "b", 2),
    ];
    let published = Published::nothing();
    published.apply(&list[..1]);
    published.apply(&list[1..]);
    assert_eq!(published.lines(), Published::after(&list));
}

#[test]
fn samples_that_are_changed_forget_what_they_said() {
    let first = Published::nothing();
    first.apply(&[publish(Gauge::ImageSize, "a", 1)]);
    let second = Published::nothing();
    second.apply(&[publish(Gauge::ImageSize, "a", 9)]);
    for published in [&first, &second] {
        published.apply(&[publish(Gauge::ImageSize, "a", 4)]);
    }
    assert_eq!(first.lines(), second.lines());
}

#[test]
fn updates_of_containers_commute() {
    let inspected = |id: &str, name: &str, restart_count: u32| {
        ContainerTracker::new(container(id, name))
            .update(ContainerEvent::Inspected(Ok(ContainerInspect {
                state: ContainerState {
                    running: false,
                    restarting: true,
                    started_at: "2015-05-15T00:00:00Z".to_owned(),
                },
                restart_count,
            })))
            .changes
    };
    let a = inspected("aaaaaaaaaaaaaa", "/one", 1);
    let b = inspected("bbbbbbbbbbbbbb", "/two", 2);
    let first = Published::nothing();
    first.apply(&a);
    first.apply(&b);
    let second = Published::nothing();
    second.apply(&b);
    second.apply(&a);
    assert_eq!(first.lines(), second.lines());
    assert_eq!(
        first.lines(),
        vec![
            "docker_container_memory_used_bytes{name=\"one\"} 0",
            "docker_container_memory_used_bytes{name=\"two\"} 0",
            "docker_container_restart_count{name=\"one\"} 1",
            "docker_container_restart_count{name=\"two\"} 2",
            "docker_container_running_state{name=\"one\"} 0.5",
            "docker_container_running_state{name=\"two\"} 0.5",
            "docker_container_start_time_seconds{name=\"one\"} 1431648000",
            "docker_container_start_time_seconds{name=\"two\"} 1431648000",
        ]
    );
}

#[test]
fn a_withdrawn_image_leaves_no_sample() {
    let published = Published::nothing();
    let (tracker, changes) = ImageTracker::new(image("1", "t", 10));
    published.apply(&changes);
    assert_eq!(published.lines().len(), 2);
    published.apply(&tracker.withdraw());
    assert!(published.lines().is_empty());
}

#[test]
fn a_tag_stays_published_while_an_image_has_it() {
    let published = Published::nothing();
    let mut collector = Collector::new();
    published.apply(&collector.sync_image_trackers(vec![image("1", "t", 10), image("2", "t", 20)]));
    published.apply(&collector.sync_image_trackers(vec![image("2", "t", 30)]));
    assert_eq!(
        published.lines(),
        vec![
            "docker_image_container_count{tag=\"t\"} 1",
            "docker_image_size{tag=\"t\"} 30",
        ]
    );
    published.apply(&collector.sync_image_trackers(Vec::new()));
    assert!(published.lines().is_empty());
}
