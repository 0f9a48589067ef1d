use cargo_backup::Package;
use cargo_backup::reconcile::reconcile;
use cargo_backup::version::Version;

fn pkg(name: &str, major: u64, minor: u64, patch: u64) -> Package {
    Package {
        name: name.to_string(),
        features: vec![],
        all_features: false,
        no_default_features: false,
        version: Version::release(major, minor, patch),
    }
}

fn names(list: &[Package]) -> Vec<String> {
    list.iter().map(|p| p.name.clone()).collect()
}

#[test]
fn example_plan() {
    let desired = vec![pkg("A", 1, 2, 0), pkg("B", 2, 0, 0)];
    let installed = vec![pkg("A", 1, 0, 0), pkg("C", 3, 0, 0)];
    let plan = reconcile(&desired, &installed, false, false, false);
    assert_eq!(names(&plan.to_install), vec!["B".to_string()]);
    assert_eq!(names(&plan.to_update), vec!["A".to_string()]);
    assert_eq!(plan.to_update[0].version, Version::release(1, 2, 0));
    assert_eq!(names(&plan.to_remove), vec!["C".to_string()]);
}

#[test]
fn identical_sets_plan_nothing() {
    let set = vec![pkg("A", 1, 0, 0), pkg("B", 0, 3, 9)];
    let copy = vec![pkg("A", 1, 0, 0), pkg("B", 0, 3, 9)];
    let plan = reconcile(&set, &copy, false, false, false);
    assert!(plan.to_install.is_empty());
    assert!(plan.to_update.is_empty());
    assert!(plan.to_remove.is_empty());
}

#[test]
fn empty_desired_removes_everything() {
    let desired: Vec<Package> = vec![];
    let installed = vec![pkg("A", 1, 0, 0), pkg("B", 2, 0, 0)];
    let plan = reconcile(&desired, &installed, false, false, false);
    assert!(plan.to_install.is_empty());
    assert!(plan.to_update.is_empty());
    assert_eq!(names(&plan.to_remove), vec!["A".to_string(), "B".to_string()]);
}

#[test]
fn equal_version_is_not_an_update() {
    let desired = vec![pkg("A", 1, 0, 0)];
    let installed = vec![pkg("A", 1, 0, 0)];
    let plan = reconcile(&desired, &installed, false, false, false);
    assert!(plan.to_install.is_empty());
    assert!(plan.to_update.is_empty());
    assert!(plan.to_remove.is_empty());
}

#[test]
fn lower_desired_version_is_not_an_update() {
    let desired = vec![pkg("A", 0, 9, 9)];
    let installed = vec![pkg("A", 1, 0, 0)];
    let plan = reconcile(&desired, &installed, false, false, false);
    assert!(plan.to_update.is_empty());
}

#[test]
fn raising_desired_version_moves_into_update() {
    let installed = vec![pkg("A", 1, 0, 0)];
    let lower = vec![pkg("A", 1, 0, 0)];
    let raised = vec![pkg("A", 1, 0, 1)];
    assert!(reconcile(&lower, &installed, false, false, false).to_update.is_empty());
    let plan = reconcile(&raised, &installed, false, false, false);
    assert_eq!(names(&plan.to_update), vec!["A".to_string()]);
}

#[test]
fn update_carries_the_desired_record() {
    let mut wanted = pkg("A", 2, 0, 0);
    wanted.features = vec!["extra".to_string()];
    wanted.all_features = true;
    let desired = vec![wanted];
    let installed = vec![pkg("A", 1, 0, 0)];
    let plan = reconcile(&desired, &installed, false, false, false);
    assert_eq!(plan.to_update.len(), 1);
    assert_eq!(plan.to_update[0].features, vec!["extra".to_string()]);
    assert!(plan.to_update[0].all_features);
    assert_eq!(plan.to_update[0].version, Version::release(2, 0, 0));
}

#[test]
fn skip_flags_empty_their_lists() {
    let desired = vec![pkg("A", 1, 2, 0), pkg("B", 2, 0, 0)];
    let installed = vec![pkg("A", 1, 0, 0), pkg("C", 3, 0, 0)];
    let plan = reconcile(&desired, &installed, true, false, false);
    assert!(plan.to_install.is_empty());
    assert_eq!(names(&plan.to_update), vec!["A".to_string()]);
    let plan = reconcile(&desired, &installed, false, true, false);
    assert!(plan.to_update.is_empty());
    assert_eq!(names(&plan.to_install), vec!["B".to_string()]);
    let plan = reconcile(&desired, &installed, false, false, true);
    assert!(plan.to_remove.is_empty());
}

#[test]
fn plan_lists_partition_the_names() {
    let desired = vec![pkg("a", 1, 0, 0), pkg("b", 2, 0, 0), pkg("c", 1, 1, 0)];
    let installed = vec![pkg("b", 1, 0, 0), pkg("c", 1, 1, 0), pkg("d", 9, 9, 9)];
    let plan = reconcile(&desired, &installed, false, false, false);
    let install = names(&plan.to_install);
    let update = names(&plan.to_update);
    let remove = names(&plan.to_remove);
    // pairwise disjoint by name
    for n in &install {
        assert!(!update.contains(n) && !remove.contains(n));
    }
    for n in &update {
        assert!(!remove.contains(n));
    }
    // install holds the desired-only names, remove the installed-only ones,
    // and with the names in both sets they cover the union
    assert_eq!(install, vec!["a".to_string()]);
    assert_eq!(remove, vec!["d".to_string()]);
    let both = vec!["b".to_string(), "c".to_string()];
    let mut covered: Vec<String> = install.clone();
    covered.extend(both);
    covered.extend(remove.clone());
    covered.sort();
    let mut union: Vec<String> = vec!["a", "b", "c", "d"].into_iter().map(String::from).collect();
    union.sort();
    assert_eq!(covered, union);
}

#[test]
fn a_pre_release_sorts_below_its_release() {
    // an installed pre-release is updated to the release of the same triple
    let installed = vec![Package {
        name: "a".to_string(),
        features: vec![],
        all_features: false,
        no_default_features: false,
        version: Version { major: 1, minor: 0, patch: 0, pre: vec!["rc".to_string()] },
    }];
    let desired = vec![pkg("a", 1, 0, 0)];
    let plan = reconcile(&desired, &installed, false, false, false);
    assert_eq!(names(&plan.to_update), vec!["a".to_string()]);
    // and never the other way around
    let plan = reconcile(&installed, &desired, false, false, false);
    assert!(plan.to_update.is_empty());
}
