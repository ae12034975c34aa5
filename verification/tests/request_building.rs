use loadfire::config::{HttpMethod, LoadTestConfig};
use loadfire::data::DataRow;
use loadfire::engine::{run, WireResult};
use loadfire::request::{build_request, BuildError};

fn base_config() -> LoadTestConfig {
    LoadTestConfig {
        url: "http://test/echo".to_string(),
        method: None,
        request_count: 1,
        headers: None,
        body: None,
        data_file: None,
    }
}

#[test]
fn method_defaults_to_get() {
    let d = build_request(&base_config(), None).expect("build succeeds");
    assert_eq!(d.method, HttpMethod::Get);
    assert_eq!(d.url, "http://test/echo");
    assert!(d.body.is_none());
    assert!(d.headers.is_empty());
}

#[test]
fn configured_method_is_kept() {
    let mut c = base_config();
    c.method = Some(HttpMethod::Post);
    let d = build_request(&c, None).expect("build succeeds");
    assert_eq!(d.method, HttpMethod::Post);
}

#[test]
fn valid_headers_are_carried_over() {
    let mut c = base_config();
    c.headers = Some(vec![
        ("content-type".to_string(), "application/json".to_string()),
        ("x-trace".to_string(), "abc123".to_string()),
    ]);
    let d = build_request(&c, None).expect("build succeeds");
    assert_eq!(d.headers.len(), 2);
    assert_eq!(d.headers[0].0, "content-type");
    assert_eq!(d.headers[1].1, "abc123");
}

#[test]
fn header_name_with_space_is_rejected() {
    let mut c = base_config();
    c.headers = Some(vec![("bad name".to_string(), "v".to_string())]);
    assert!(matches!(build_request(&c, None), Err(BuildError::InvalidHeader)));
}

#[test]
fn header_value_with_newline_is_rejected() {
    let mut c = base_config();
    c.headers = Some(vec![("x-ok".to_string(), "a\nb".to_string())]);
    assert!(matches!(build_request(&c, None), Err(BuildError::InvalidHeader)));
}

#[test]
fn body_is_substituted_from_the_row() {
    let mut c = base_config();
    c.body = Some("{\"user\":\"${name}\"}".to_string());
    let row = DataRow {
        pairs: vec![("name".to_string(), "Ann".to_string())],
    };
    let d = build_request(&c, Some(&row)).expect("build succeeds");
    assert_eq!(d.body.as_deref(), Some("{\"user\":\"Ann\"}"));
}

#[test]
fn body_without_row_is_used_verbatim() {
    let mut c = base_config();
    c.body = Some("raw ${name}".to_string());
    let d = build_request(&c, None).expect("build succeeds");
    assert_eq!(d.body.as_deref(), Some("raw ${name}"));
}

#[test]
fn invalid_header_fails_every_request_of_the_run() {
    let mut c = base_config();
    c.request_count = 4;
    c.headers = Some(vec![("bad name".to_string(), "v".to_string())]);
    let wire: Vec<WireResult> = (0..4)
        .map(|_| WireResult {
            status: Some(200),
            elapsed_ns: 2,
        })
        .collect();
    let stats = run(&c, &Vec::new(), &wire);
    assert_eq!(stats.total, 4);
    assert_eq!(stats.succeeded, 0);
    assert_eq!(stats.failed, 4);
    assert_eq!(stats.failure_bp, 10000);
}
