//! Settings, and the answers to requests.

use docker_exporter::config::{Config, LevelFilter, VarError, PORT};
use docker_exporter::http::{answer_after_update, route, Answer, Route, METRICS_PATH};

fn set(text: &str) -> Result<String, VarError> {
    Ok(text.to_owned())
}

#[test]
fn one_and_true_switch_a_setting_on() {
    for default in [false, true] {
        for text in ["1", "true", "TRUE", "True", "tRuE"] {
            assert!(Config::is_truthy(set(text), default));
        }
        for text in ["", "0", "false", "yes", "11", " 1", "true ", "tru", "\u{212a}"] {
            assert!(!Config::is_truthy(set(text), default));
        }
    }
}

#[test]
fn a_variable_without_a_value_leaves_the_default() {
    for default in [false, true] {
        assert_eq!(
            Config::is_truthy(Err(VarError::NotPresent), default),
            default
        );
        assert_eq!(
            Config::is_truthy(Err(VarError::NotUnicode), default),
            default
        );
    }
}

#[test]
fn each_variable_has_its_setting() {
    let config = Config::new(set("1"), set("0"), Err(VarError::NotPresent), true);
    assert_eq!(config.port, 9417);
    assert_eq!(config.port, PORT);
    assert_eq!(config.min_log_level, LevelFilter::Debug);
    assert!(!config.collect_image_metrics);
    assert!(config.collect_volume_metrics);

    let config = Config::new(Err(VarError::NotPresent), set("true"), set("no"), false);
    assert_eq!(config.min_log_level, LevelFilter::Info);
    assert!(config.collect_image_metrics);
    assert!(!config.collect_volume_metrics);
}

#[test]
fn only_the_metrics_are_served() {
    assert_eq!(METRICS_PATH, "/metrics");
    assert_eq!(route("/metrics"), Route::Update);
    for url in ["/", "", "/metrics/", "/Metrics", "/metrics?x=1", "metrics"] {
        assert_eq!(route(url), Route::Reply(Answer::Empty(404)));
    }
}

#[test]
fn a_failed_update_is_answered_with_a_status() {
    assert_eq!(answer_after_update(true), Answer::Metrics);
    assert_eq!(answer_after_update(false), Answer::Empty(408));
}
