use cargo_backup::{slice_info, packages_from_entries, LedgerEntry};
use cargo_backup::version::Version;

#[test]
fn test_slice_info() {
    let (name, version, skip) = slice_info("foo 0.1.0 (path+file:///home/user/foo)").unwrap();
    assert_eq!(name, "foo");
    assert_eq!(version, Version::release(0, 1, 0));
    assert!(skip);

    let (name, version, skip) =
        slice_info("foo 0.1.0 (registry+https://example.com/foo)").unwrap();
    assert_eq!(name, "foo");
    assert_eq!(version, Version::release(0, 1, 0));
    assert!(!skip);
}

#[test]
fn slice_info_rejects_malformed_lines() {
    assert!(slice_info("").is_none());
    assert!(slice_info("foo").is_none());
    assert!(slice_info("foo 0.1.0").is_none());
    assert!(slice_info("foo notaversion (registry+https://example.com)").is_none());
}

fn entry(id: &str, features: Vec<&str>) -> LedgerEntry {
    LedgerEntry {
        id: id.to_string(),
        features: features.into_iter().map(|f| f.to_string()).collect(),
        all_features: false,
        no_default_features: false,
    }
}

#[test]
fn ledger_normalization_skips_local_and_malformed() {
    let entries = vec![
        entry("alpha 1.0.0 (registry+https://example.com/a)", vec!["x"]),
        entry("local 0.1.0 (path+file:///home/user/local)", vec![]),
        entry("nonsense", vec![]),
        entry("beta 2.3.4 (registry+https://example.com/b)", vec![]),
    ];
    let packages = packages_from_entries(&entries);
    assert_eq!(packages.len(), 2);
    assert_eq!(packages[0].name, "alpha");
    assert_eq!(packages[0].features, vec!["x".to_string()]);
    assert_eq!(packages[0].version, Version::release(1, 0, 0));
    assert_eq!(packages[1].name, "beta");
    assert_eq!(packages[1].version, Version::release(2, 3, 4));
}

#[test]
fn slice_info_parses_pre_release_versions() {
    let (name, version, skip) =
        slice_info("foo 1.0.0-alpha (registry+https://example.com/foo)").unwrap();
    assert_eq!(name, "foo");
    assert_eq!(
        version,
        Version { major: 1, minor: 0, patch: 0, pre: vec!["alpha".to_string()] }
    );
    assert!(!skip);
}
