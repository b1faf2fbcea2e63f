use cratesiover::error::Error;
use cratesiover::pipeline::{finish_query, version_from_fetch, Status};
use cratesiover::present::render_report;
use cratesiover::version::SemanticVersion;

const BODY: &str = "{\"crate\":{\"id\":\"papyrus\",\"max_version\":\"2.1.0\"}}";

#[test]
fn version_from_fetched_body() {
    let v = version_from_fetch(Ok(BODY.to_string())).unwrap();
    assert_eq!(v, SemanticVersion::parse("2.1.0").unwrap());
}

#[test]
fn version_from_body_without_field() {
    assert_eq!(
        version_from_fetch(Ok("{}".to_string())),
        Err(Error::ParseFailure)
    );
}

#[test]
fn version_from_body_with_malformed_version() {
    let body = "{\"max_version\":\"0..2\"}";
    assert_eq!(
        version_from_fetch(Ok(body.to_string())),
        Err(Error::VersionSyntaxError)
    );
}

#[test]
fn version_from_failed_fetch() {
    assert_eq!(
        version_from_fetch(Err("connection refused".to_string())),
        Err(Error::RequestFailure("connection refused".to_string()))
    );
}

#[test]
fn query_equal_end_to_end() {
    let current = SemanticVersion::parse("2.1.0").unwrap();
    let status = finish_query(&current, Ok(BODY.to_string())).unwrap();
    assert_eq!(status, Status::Equal(SemanticVersion::parse("2.1.0").unwrap()));
}

#[test]
fn query_behind_end_to_end() {
    let current = SemanticVersion::parse("1.0.0").unwrap();
    let status = finish_query(&current, Ok(BODY.to_string())).unwrap();
    assert_eq!(status, Status::Behind(SemanticVersion::parse("2.1.0").unwrap()));
}

#[test]
fn query_ahead_end_to_end() {
    let current = SemanticVersion::parse("2.2.0").unwrap();
    let status = finish_query(&current, Ok(BODY.to_string())).unwrap();
    assert_eq!(status, Status::Ahead(SemanticVersion::parse("2.1.0").unwrap()));
}

#[test]
fn query_transport_failure_end_to_end() {
    let current = SemanticVersion::parse("2.1.0").unwrap();
    let outcome = finish_query(&current, Err("connection refused".to_string()));
    assert_eq!(
        outcome,
        Err(Error::RequestFailure("connection refused".to_string()))
    );
    let line = render_report("2.1.0", &outcome);
    assert_eq!(line.as_str(), "Failed to query crates.io");
}

#[test]
fn report_lines() {
    let registry = SemanticVersion::parse("2.1.0").unwrap();
    assert_eq!(
        render_report("2.1.0", &Ok(Status::Equal(registry.clone()))).as_str(),
        "Running the latest papyrus version 2.1.0"
    );
    assert_eq!(
        render_report("1.0.0", &Ok(Status::Behind(registry.clone()))).as_str(),
        "The current papyrus version 1.0.0 is old, please update to 2.1.0"
    );
    assert_eq!(
        render_report("2.2.0", &Ok(Status::Ahead(registry.clone()))).as_str(),
        "The current papyrus version 2.2.0 is ahead of the crates.io version 2.1.0"
    );
    assert_eq!(
        render_report("2.1.0", &Err(Error::ParseFailure)).as_str(),
        "Failed to query crates.io"
    );
    assert_eq!(
        render_report("2.1.0", &Err(Error::VersionSyntaxError)).as_str(),
        "Failed to query crates.io"
    );
}
