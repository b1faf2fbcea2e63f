use cratesiover::error::Error;
use cratesiover::extract::extract;
use cratesiover::version::{Identifier, SemanticVersion};

#[test]
fn parse_test() {
    assert_eq!(extract("\"max_version\":\"0.4.2\"").unwrap(), "0.4.2");
    assert_eq!(extract("\"max_version\":\"0..2\"").unwrap(), "0..2");
}

#[test]
fn extract_missing_field() {
    assert_eq!(extract("no such field here"), Err(Error::ParseFailure));
}

#[test]
fn extract_field_without_value() {
    assert_eq!(extract("\"max_version\""), Err(Error::ParseFailure));
    assert_eq!(extract("\"max_version\":"), Err(Error::ParseFailure));
}

#[test]
fn extract_ignores_later_fields() {
    assert_eq!(
        extract("{\"crate\":{\"max_version\":\"1.0.0\",\"name\":\"x\"}}").unwrap(),
        "1.0.0"
    );
}

#[test]
fn parse_plain_version() {
    let v = SemanticVersion::parse("1.22.333").unwrap();
    assert_eq!(v.major, 1);
    assert_eq!(v.minor, 22);
    assert_eq!(v.patch, 333);
    assert!(v.pre.is_empty());
    assert!(v.build.is_none());
}

#[test]
fn parse_pre_release_and_build() {
    let v = SemanticVersion::parse("1.2.3-alpha.1+build.5").unwrap();
    assert_eq!(v.major, 1);
    assert_eq!(v.minor, 2);
    assert_eq!(v.patch, 3);
    assert_eq!(
        v.pre,
        vec![
            Identifier::AlphaNumeric("alpha".to_string()),
            Identifier::Numeric(1),
        ]
    );
    assert_eq!(v.build, Some("build.5".to_string()));
}

#[test]
fn parse_malformed_core() {
    assert_eq!(
        SemanticVersion::parse("0..2"),
        Err(Error::VersionSyntaxError)
    );
    assert_eq!(SemanticVersion::parse(""), Err(Error::VersionSyntaxError));
    assert_eq!(
        SemanticVersion::parse("1.0"),
        Err(Error::VersionSyntaxError)
    );
    assert_eq!(
        SemanticVersion::parse("1.2.3.4"),
        Err(Error::VersionSyntaxError)
    );
    assert_eq!(
        SemanticVersion::parse("a.b.c"),
        Err(Error::VersionSyntaxError)
    );
    assert_eq!(
        SemanticVersion::parse("01.0.0"),
        Err(Error::VersionSyntaxError)
    );
}

#[test]
fn parse_malformed_pre_and_build() {
    assert_eq!(
        SemanticVersion::parse("1.0.0-"),
        Err(Error::VersionSyntaxError)
    );
    assert_eq!(
        SemanticVersion::parse("1.0.0-01"),
        Err(Error::VersionSyntaxError)
    );
    assert_eq!(
        SemanticVersion::parse("1.0.0-alpha..1"),
        Err(Error::VersionSyntaxError)
    );
    assert_eq!(
        SemanticVersion::parse("1.0.0+"),
        Err(Error::VersionSyntaxError)
    );
    assert_eq!(
        SemanticVersion::parse("1.0.0+meta..x"),
        Err(Error::VersionSyntaxError)
    );
    assert_eq!(
        SemanticVersion::parse("1.0.0-al_pha"),
        Err(Error::VersionSyntaxError)
    );
}

#[test]
fn parse_numeric_limits() {
    let v = SemanticVersion::parse("18446744073709551615.0.0").unwrap();
    assert_eq!(v.major, u64::MAX);
    assert_eq!(
        SemanticVersion::parse("18446744073709551616.0.0"),
        Err(Error::VersionSyntaxError)
    );
}

#[test]
fn format_parse_round_trip() {
    let v = SemanticVersion {
        major: 0,
        minor: 10,
        patch: 207,
        pre: vec![],
        build: None,
    };
    let text = v.to_text();
    assert_eq!(text.as_str(), "0.10.207");
    assert_eq!(SemanticVersion::parse(&text).unwrap(), v);
}

#[test]
fn render_full_version() {
    let v = SemanticVersion::parse("1.2.3-alpha.1+build.5").unwrap();
    assert_eq!(v.to_text().as_str(), "1.2.3-alpha.1+build.5");
    let again = SemanticVersion::parse(&v.to_text()).unwrap();
    assert_eq!(again, v);
}
