use cargo_backup::version::{Version, parse_version};

#[test]
fn parses_plain_versions() {
    assert_eq!(parse_version("1.2.3"), Some(Version::release(1, 2, 3)));
    assert_eq!(parse_version("0.0.0"), Some(Version::release(0, 0, 0)));
    assert_eq!(
        parse_version("18446744073709551615.0.1"),
        Some(Version::release(u64::MAX, 0, 1))
    );
}

#[test]
fn rejects_malformed_versions() {
    assert_eq!(parse_version(""), None);
    assert_eq!(parse_version("1.2"), None);
    assert_eq!(parse_version("1.2.3.4"), None);
    assert_eq!(parse_version("1.2.x"), None);
    assert_eq!(parse_version("v1.2.3"), None);
    assert_eq!(parse_version("1.2.3 "), None);
    // one more than u64::MAX
    assert_eq!(parse_version("18446744073709551616.0.0"), None);
}

#[test]
fn orders_lexicographically() {
    let a = Version::release(1, 0, 0);
    let b = Version::release(1, 0, 1);
    let c = Version::release(1, 1, 0);
    let d = Version::release(2, 0, 0);
    assert!(a.lt(&b));
    assert!(b.lt(&c));
    assert!(c.lt(&d));
    assert!(!b.lt(&a));
    assert!(!a.lt(&a));
}

fn pre(major: u64, minor: u64, patch: u64, ids: Vec<&str>) -> Version {
    Version {
        major,
        minor,
        patch,
        pre: ids.into_iter().map(String::from).collect(),
    }
}

#[test]
fn parses_pre_release_versions() {
    assert_eq!(parse_version("1.0.0-alpha"), Some(pre(1, 0, 0, vec!["alpha"])));
    assert_eq!(parse_version("1.0.0-alpha.1"), Some(pre(1, 0, 0, vec!["alpha", "1"])));
    assert_eq!(parse_version("1.0.0-x-y-z.0"), Some(pre(1, 0, 0, vec!["x-y-z", "0"])));
    assert_eq!(parse_version("1.0.0-0.3.7"), Some(pre(1, 0, 0, vec!["0", "3", "7"])));
}

#[test]
fn rejects_malformed_pre_release_versions() {
    // empty identifiers
    assert_eq!(parse_version("1.0.0-"), None);
    assert_eq!(parse_version("1.0.0-alpha."), None);
    assert_eq!(parse_version("1.0.0-alpha..1"), None);
    // a numeric identifier must not have a leading zero
    assert_eq!(parse_version("1.0.0-01"), None);
    // build metadata is not carried
    assert_eq!(parse_version("1.0.0+build"), None);
    assert_eq!(parse_version("1.0.0-alpha+001"), None);
}

#[test]
fn orders_pre_releases_by_precedence() {
    // the ordering chain of the semantic-versioning precedence rules
    let chain = vec![
        pre(1, 0, 0, vec!["alpha"]),
        pre(1, 0, 0, vec!["alpha", "1"]),
        pre(1, 0, 0, vec!["alpha", "beta"]),
        pre(1, 0, 0, vec!["beta"]),
        pre(1, 0, 0, vec!["beta", "2"]),
        pre(1, 0, 0, vec!["beta", "11"]),
        pre(1, 0, 0, vec!["rc", "1"]),
        Version::release(1, 0, 0),
    ];
    for i in 0..chain.len() {
        for j in 0..chain.len() {
            assert_eq!(chain[i].lt(&chain[j]), i < j, "chain[{}] vs chain[{}]", i, j);
        }
    }
}
