use cargo_backup::Package;
use cargo_backup::commands::{install_args, remove_args, plan_commands};
use cargo_backup::reconcile::reconcile;
use cargo_backup::version::Version;

fn pkg(name: &str, features: Vec<&str>, all: bool, ndf: bool, v: (u64, u64, u64)) -> Package {
    Package {
        name: name.to_string(),
        features: features.into_iter().map(|f| f.to_string()).collect(),
        all_features: all,
        no_default_features: ndf,
        version: Version::release(v.0, v.1, v.2),
    }
}

#[test]
fn install_args_pin_the_version() {
    let p = pkg("foo", vec![], false, false, (0, 1, 0));
    assert_eq!(install_args(&p), vec!["install", "foo", "--version", "0.1.0"]);
}

#[test]
fn install_args_carry_every_switch() {
    let p = pkg("package", vec!["feature1", "feature2"], true, true, (0, 5, 3));
    assert_eq!(
        install_args(&p),
        vec![
            "install",
            "package",
            "--version",
            "0.5.3",
            "--all-features",
            "--no-default-features",
            "--features",
            "feature1,feature2",
        ]
    );
}

#[test]
fn remove_args_are_bare_removal_by_name() {
    let p = pkg("foo", vec!["ignored"], true, true, (1, 0, 0));
    assert_eq!(remove_args(&p), vec!["uninstall", "foo"]);
}

#[test]
fn plan_commands_run_installs_then_updates_then_removals() {
    let desired = vec![pkg("new", vec![], false, false, (1, 0, 0)),
        pkg("old", vec![], false, false, (2, 0, 0))];
    let installed = vec![pkg("old", vec![], false, false, (1, 0, 0)),
        pkg("gone", vec![], false, false, (1, 0, 0))];
    let plan = reconcile(&desired, &installed, false, false, false);
    let cmds = plan_commands(&plan);
    assert_eq!(cmds.len(), 3);
    assert_eq!(cmds[0], vec!["install", "new", "--version", "1.0.0"]);
    assert_eq!(cmds[1], vec!["install", "old", "--version", "2.0.0"]);
    assert_eq!(cmds[2], vec!["uninstall", "gone"]);
}
