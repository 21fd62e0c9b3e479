//! Queries to the daemon, and what becomes of their answers.

use docker_exporter::docker::{
    decoded, inspect_endpoint, response_body, stats_endpoint, BlkioStats, CpuUsage, DockerError,
    Exchange, API_VERSION, CONTAINERS_ENDPOINT, DATA_USAGE_ENDPOINT, REQUEST_TIMEOUT_SECONDS,
    SOCKET_PATH,
};

fn answered(code: u16, status: &str, body: Result<Vec<u8>, String>) -> Exchange {
    Exchange::Answered {
        code,
        status: status.to_owned(),
        body,
    }
}

fn failure<T>(result: Result<T, DockerError>) -> DockerError {
    match result {
        Ok(_) => panic!("no failure"),
        Err(error) => error,
    }
}

#[test]
fn endpoints_belong_to_one_version_of_the_interface() {
    assert_eq!(
        inspect_endpoint("0123"),
        "/v1.44/containers/0123/json"
    );
    assert_eq!(
        stats_endpoint("0123"),
        "/v1.44/containers/0123/stats?stream=false"
    );
    assert_eq!(CONTAINERS_ENDPOINT, "/v1.44/containers/json?all=true");
    assert_eq!(DATA_USAGE_ENDPOINT, "/v1.44/system/df");
    assert!(CONTAINERS_ENDPOINT.starts_with(API_VERSION));
    assert!(DATA_USAGE_ENDPOINT.starts_with(API_VERSION));
    assert_eq!(SOCKET_PATH, "/var/run/docker.sock");
    assert_eq!(REQUEST_TIMEOUT_SECONDS, 15);
}

#[test]
fn a_successful_answer_is_read() {
    for code in [200u16, 201, 299] {
        match response_body("/e", answered(code, "fine", Ok(vec![1u8, 255]))) {
            Ok(body) => assert_eq!(body, vec![1u8, 255]),
            Err(_) => panic!("no success"),
        }
    }
}

#[test]
fn an_answer_that_does_not_come_is_a_timeout() {
    let error = failure(response_body("/e", Exchange::TimedOut));
    assert!(matches!(&error, DockerError::Timeout { endpoint } if endpoint == "/e"));
    assert_eq!(error.message(), "/e timed out.");
}

#[test]
fn a_connection_that_fails_is_a_failure_of_transport() {
    let error = failure(response_body("/e", Exchange::Failed("refused".to_owned())));
    assert!(matches!(
        &error,
        DockerError::Transport { endpoint, error } if endpoint == "/e" && error == "refused"
    ));
    assert_eq!(error.message(), "/e refused");
}

#[test]
fn a_body_that_breaks_off_comes_before_a_bad_status() {
    for code in [200u16, 500] {
        let error = failure(response_body(
            "/e",
            answered(code, "any", Err("closed".to_owned())),
        ));
        assert!(matches!(&error, DockerError::Transport { error, .. } if error == "closed"));
    }
}

#[test]
fn a_bad_status_is_reported_with_the_body() {
    for code in [199u16, 300, 404, 500] {
        let error = failure(response_body(
            "/e",
            answered(code, "404 Not Found", Ok(b"no such container".to_vec())),
        ));
        assert!(matches!(&error, DockerError::Http { endpoint, .. } if endpoint == "/e"));
        assert_eq!(
            error.message(),
            "/e HTTP 404 Not Found - no such container"
        );
    }
}

#[test]
fn bytes_that_are_no_text_are_replaced_in_reports() {
    let error = failure(response_body(
        "/e",
        answered(500, "500", Ok(vec![b'a', 255u8, b'b'])),
    ));
    assert_eq!(error.message(), "/e HTTP 500 - a\u{fffd}b");
    let error = failure(response_body(
        "/e",
        answered(500, "500", Ok("\u{e9}".as_bytes().to_vec())),
    ));
    assert_eq!(error.message(), "/e HTTP 500 - \u{e9}");
}

#[test]
fn data_is_handed_on() {
    match decoded("/e", &vec![b'7'], Ok(7u8)) {
        Ok(data) => assert_eq!(data, 7u8),
        Err(_) => panic!("no data"),
    }
}

#[test]
fn data_that_cannot_be_read_is_reported_with_the_body() {
    let error = failure(decoded::<u8>(
        "/e",
        &vec![b'{', 255u8],
        Err("expected value".to_owned()),
    ));
    assert!(matches!(
        &error,
        DockerError::Deserialization { endpoint, error, body }
            if endpoint == "/e" && error == "expected value" && body == "{\u{fffd}"
    ));
    assert_eq!(
        error.message(),
        "/e deserialization error expected value - {\u{fffd}"
    );
}

#[test]
fn what_is_not_reported_is_zero() {
    assert_eq!(CpuUsage::default().total_usage, 0);
    assert!(BlkioStats::default()
        .io_service_bytes_recursive
        .is_empty());
}
