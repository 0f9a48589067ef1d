//! Package-manager invocations, fully materialized from package records:
//! the argument lists for installing, updating and removing, and the fixed
//! install-then-update-then-remove order a plan is executed in.

use vstd::prelude::*;

use crate::{Package, PackageView, views};
use crate::reconcile::ReconciliationPlan;
use crate::strutil::{spec_join, strs_view, join_strs, chars_to_string};
use crate::version::{version_chars, version_to_chars};

verus! {

/// The argument list that installs (or updates to) this exact package:
/// name, pinned version, and the feature switches the record carries.
pub open spec fn spec_install_args(p: PackageView) -> Seq<Seq<char>> {
    seq!["install"@, p.name, "--version"@, version_chars(p.version)] + (if p.all_features {
        seq!["--all-features"@]
    } else {
        Seq::empty()
    }) + (if p.no_default_features {
        seq!["--no-default-features"@]
    } else {
        Seq::empty()
    }) + (if p.features.len() > 0 {
        seq!["--features"@, spec_join(p.features, ","@)]
    } else {
        Seq::empty()
    })
}

/// The argument list that removes this package: bare removal by name.
pub open spec fn spec_remove_args(p: PackageView) -> Seq<Seq<char>> {
    seq!["uninstall"@, p.name]
}

/// Builds the install/update argument list for a package.
pub fn install_args(p: &Package) -> (r: Vec<String>)
    ensures
        strs_view(r@) == spec_install_args(p@),
{
    let mut args: Vec<String> = Vec::new();
    args.push(String::from_str("install"));
    args.push(p.name.clone());
    args.push(String::from_str("--version"));
    let ver = version_to_chars(&p.version);
    args.push(chars_to_string(&ver));
    if p.all_features {
        args.push(String::from_str("--all-features"));
    }
    if p.no_default_features {
        args.push(String::from_str("--no-default-features"));
    }
    if p.features.len() > 0 {
        args.push(String::from_str("--features"));
        let joined = join_strs(&p.features, ",");
        args.push(chars_to_string(&joined));
    }
    proof {
        assert(strs_view(args@) =~= spec_install_args(p@));
    }
    args
}

/// Builds the removal argument list for a package.
pub fn remove_args(p: &Package) -> (r: Vec<String>)
    ensures
        strs_view(r@) == spec_remove_args(p@),
{
    let mut args: Vec<String> = Vec::new();
    args.push(String::from_str("uninstall"));
    args.push(p.name.clone());
    proof {
        assert(strs_view(args@) =~= spec_remove_args(p@));
    }
    args
}

/// The views of a sequence of argument lists.
pub open spec fn args_views(cmds: Seq<Vec<String>>) -> Seq<Seq<Seq<char>>> {
    cmds.map_values(|c: Vec<String>| strs_view(c@))
}

/// The install argument lists for a run of packages.
pub open spec fn install_cmds(ps: Seq<PackageView>) -> Seq<Seq<Seq<char>>> {
    ps.map_values(|p: PackageView| spec_install_args(p))
}

/// The removal argument lists for a run of packages.
pub open spec fn remove_cmds(ps: Seq<PackageView>) -> Seq<Seq<Seq<char>>> {
    ps.map_values(|p: PackageView| spec_remove_args(p))
}

/// The argument lists a plan executes, in its fixed order: every install,
/// then every update (an install of the desired record), then every
/// removal.
pub open spec fn spec_plan_commands(
    install: Seq<PackageView>,
    update: Seq<PackageView>,
    remove: Seq<PackageView>,
) -> Seq<Seq<Seq<char>>> {
    install_cmds(install) + install_cmds(update) + remove_cmds(remove)
}

/// Materializes a plan into the ordered argument lists to hand to the
/// package manager: installs first, then updates, then removals.
pub fn plan_commands(plan: &ReconciliationPlan) -> (r: Vec<Vec<String>>)
    ensures
        args_views(r@) == spec_plan_commands(
            views(plan.to_install@),
            views(plan.to_update@),
            views(plan.to_remove@),
        ),
{
    let mut cmds: Vec<Vec<String>> = Vec::new();
    let mut i: usize = 0;
    let ghost ivs = views(plan.to_install@);
    let ghost uvs = views(plan.to_update@);
    let ghost rvs = views(plan.to_remove@);
    proof {
        assert(args_views(cmds@) =~= install_cmds(ivs.take(0)));
    }
    while i < plan.to_install.len()
        invariant
            0 <= i <= plan.to_install@.len(),
            ivs == views(plan.to_install@),
            ivs.len() == plan.to_install@.len(),
            cmds@.len() == i,
            args_views(cmds@) == install_cmds(ivs.take(i as int)),
        decreases plan.to_install@.len() - i,
    {
        let a = install_args(&plan.to_install[i]);
        let ghost oc = cmds@;
        cmds.push(a);
        i = i + 1;
        proof {
            assert(ivs[i - 1] == plan.to_install@[i - 1]@);
            assert(forall|t: int| 0 <= t < i - 1 ==> #[trigger] args_views(cmds@)[t]
                == args_views(oc)[t]);
            assert(forall|t: int| 0 <= t < i - 1 ==> #[trigger] install_cmds(ivs.take(i as int))[t]
                == install_cmds(ivs.take(i - 1))[t]);
            assert(args_views(cmds@)[i - 1] == install_cmds(ivs.take(i as int))[i - 1]);
            assert(args_views(cmds@) =~= install_cmds(ivs.take(i as int)));
        }
    }
    proof {
        assert(ivs.take(ivs.len() as int) =~= ivs);
        assert(args_views(cmds@) =~= install_cmds(ivs) + install_cmds(uvs.take(0)));
    }
    let mut j: usize = 0;
    while j < plan.to_update.len()
        invariant
            0 <= j <= plan.to_update@.len(),
            ivs == views(plan.to_install@),
            uvs == views(plan.to_update@),
            uvs.len() == plan.to_update@.len(),
            cmds@.len() == ivs.len() + j,
            args_views(cmds@) == install_cmds(ivs) + install_cmds(uvs.take(j as int)),
        decreases plan.to_update@.len() - j,
    {
        let a = install_args(&plan.to_update[j]);
        let ghost oc = cmds@;
        cmds.push(a);
        j = j + 1;
        proof {
            assert(uvs[j - 1] == plan.to_update@[j - 1]@);
            assert(forall|t: int| 0 <= t < oc.len() ==> #[trigger] args_views(cmds@)[t]
                == args_views(oc)[t]);
            assert(forall|t: int| 0 <= t < j - 1 ==> #[trigger] install_cmds(uvs.take(j as int))[t]
                == install_cmds(uvs.take(j - 1))[t]);
            assert(args_views(cmds@)[oc.len() as int] == install_cmds(uvs.take(j as int))[j - 1]);
            assert(args_views(cmds@) =~= install_cmds(ivs) + install_cmds(uvs.take(j as int)));
        }
    }
    proof {
        assert(uvs.take(uvs.len() as int) =~= uvs);
        assert(args_views(cmds@) =~= install_cmds(ivs) + install_cmds(uvs) + remove_cmds(
            rvs.take(0),
        ));
    }
    let mut k: usize = 0;
    while k < plan.to_remove.len()
        invariant
            0 <= k <= plan.to_remove@.len(),
            ivs == views(plan.to_install@),
            uvs == views(plan.to_update@),
            rvs == views(plan.to_remove@),
            rvs.len() == plan.to_remove@.len(),
            cmds@.len() == ivs.len() + uvs.len() + k,
            args_views(cmds@) == install_cmds(ivs) + install_cmds(uvs) + remove_cmds(
                rvs.take(k as int),
            ),
        decreases plan.to_remove@.len() - k,
    {
        let a = remove_args(&plan.to_remove[k]);
        let ghost oc = cmds@;
        cmds.push(a);
        k = k + 1;
        proof {
            assert(rvs[k - 1] == plan.to_remove@[k - 1]@);
            assert(forall|t: int| 0 <= t < oc.len() ==> #[trigger] args_views(cmds@)[t]
                == args_views(oc)[t]);
            assert(forall|t: int| 0 <= t < k - 1 ==> #[trigger] remove_cmds(rvs.take(k as int))[t]
                == remove_cmds(rvs.take(k - 1))[t]);
            assert(args_views(cmds@)[oc.len() as int] == remove_cmds(rvs.take(k as int))[k - 1]);
            assert(args_views(cmds@) =~= install_cmds(ivs) + install_cmds(uvs) + remove_cmds(
                rvs.take(k as int),
            ));
        }
    }
    proof {
        assert(rvs.take(rvs.len() as int) =~= rvs);
        assert(args_views(cmds@) =~= spec_plan_commands(ivs, uvs, rvs));
    }
    cmds
}

} // verus!
