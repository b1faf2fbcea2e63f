use cratesiover::pipeline::{classify, Status};
use cratesiover::version::{compare, Comparison, SemanticVersion};

#[test]
fn cmp_test() {
    let one_pt_oh = SemanticVersion::parse("1.0.0").unwrap();
    let pt_one_oh = SemanticVersion::parse("0.1.0").unwrap();
    assert_eq!(
        classify(&one_pt_oh, one_pt_oh.clone()),
        Status::Equal(one_pt_oh.clone())
    );
    assert_eq!(
        classify(&pt_one_oh, one_pt_oh.clone()),
        Status::Behind(one_pt_oh.clone())
    );
    assert_eq!(
        classify(&one_pt_oh, pt_one_oh.clone()),
        Status::Ahead(pt_one_oh.clone())
    );
}

#[test]
fn compare_numeric_core() {
    let a = SemanticVersion::parse("1.2.3").unwrap();
    let b = SemanticVersion::parse("1.2.4").unwrap();
    let c = SemanticVersion::parse("1.10.0").unwrap();
    let d = SemanticVersion::parse("2.0.0").unwrap();
    assert_eq!(compare(&a, &b), Comparison::Less);
    assert_eq!(compare(&b, &c), Comparison::Less);
    assert_eq!(compare(&c, &d), Comparison::Less);
    assert_eq!(compare(&d, &a), Comparison::Greater);
    assert_eq!(compare(&a, &a), Comparison::Equal);
}

#[test]
fn compare_pre_release_chain() {
    // the precedence chain of the semantic-versioning rules
    let chain = [
        "1.0.0-alpha",
        "1.0.0-alpha.1",
        "1.0.0-alpha.beta",
        "1.0.0-beta",
        "1.0.0-beta.2",
        "1.0.0-beta.11",
        "1.0.0-rc.1",
        "1.0.0",
    ];
    for i in 0..chain.len() {
        for j in 0..chain.len() {
            let a = SemanticVersion::parse(chain[i]).unwrap();
            let b = SemanticVersion::parse(chain[j]).unwrap();
            let expected = if i < j {
                Comparison::Less
            } else if i == j {
                Comparison::Equal
            } else {
                Comparison::Greater
            };
            assert_eq!(compare(&a, &b), expected);
        }
    }
}

#[test]
fn compare_ignores_build_metadata() {
    let a = SemanticVersion::parse("1.0.0+under").unwrap();
    let b = SemanticVersion::parse("1.0.0+cover").unwrap();
    assert_eq!(compare(&a, &b), Comparison::Equal);
    let c = SemanticVersion::parse("1.0.0-rc.1+build.7").unwrap();
    let d = SemanticVersion::parse("1.0.0-rc.1").unwrap();
    assert_eq!(compare(&c, &d), Comparison::Equal);
}
