//! The reconciliation engine: compares a desired package set against the
//! installed set and computes the disjoint install/update/remove action
//! lists, a pure function of the two sets.

use vstd::prelude::*;

use crate::{Package, PackageView, views, has_name, unique_names};
use crate::version::version_lt;

verus! {

/// The minimal plan that turns the installed set into the desired set:
/// three action lists, pairwise disjoint by name.
pub struct ReconciliationPlan {
    pub to_install: Vec<Package>,
    pub to_update: Vec<Package>,
    pub to_remove: Vec<Package>,
}

/// The package in `s` named `n` (unique when `unique_names(s)` and
/// meaningful only when `has_name(s, n)`).
pub open spec fn named(s: Seq<PackageView>, n: Seq<char>) -> PackageView {
    s[choose|i: int| 0 <= i < s.len() && (#[trigger] s[i]).name == n]
}

/// What `named` picks is in range, carries the name, and under unique
/// names is the only package with it.
pub proof fn lemma_named(s: Seq<PackageView>, n: Seq<char>)
    requires
        has_name(s, n),
    ensures
        named(s, n).name == n,
        exists|i: int| 0 <= i < s.len() && s[i] == named(s, n),
        unique_names(s) ==> forall|i: int|
            0 <= i < s.len() && (#[trigger] s[i]).name == n ==> s[i] == named(s, n),
{
    let w = choose|i: int| 0 <= i < s.len() && (#[trigger] s[i]).name == n;
    assert(s[w] == named(s, n));
    if unique_names(s) {
        assert forall|i: int|
            0 <= i < s.len() && (#[trigger] s[i]).name == n implies s[i] == named(s, n) by {
            if i < w {
                assert(s[i].name != s[w].name);
            } else if w < i {
                assert(s[w].name != s[i].name);
            }
        }
    }
}

/// The desired packages whose names are absent from the installed set,
/// in desired order.
pub open spec fn spec_to_install(d: Seq<PackageView>, inst: Seq<PackageView>) -> Seq<PackageView>
    decreases d.len(),
{
    if d.len() == 0 {
        Seq::empty()
    } else {
        let rest = spec_to_install(d.drop_last(), inst);
        if !has_name(inst, d.last().name) {
            rest.push(d.last())
        } else {
            rest
        }
    }
}

/// The desired record that updates installed package `q`: present exactly
/// when a desired package shares `q`'s name and strictly raises its
/// version. The desired record, carrying the new feature flags, is the one
/// placed into the plan.
pub open spec fn upgrade_target(d: Seq<PackageView>, q: PackageView) -> Option<PackageView> {
    if has_name(d, q.name) && version_lt(q.version, named(d, q.name).version) {
        Some(named(d, q.name))
    } else {
        None
    }
}

/// The update list: for each installed package with a strictly newer
/// desired counterpart, that counterpart, in installed order.
pub open spec fn spec_to_update(d: Seq<PackageView>, inst: Seq<PackageView>) -> Seq<PackageView>
    decreases inst.len(),
{
    if inst.len() == 0 {
        Seq::empty()
    } else {
        let rest = spec_to_update(d, inst.drop_last());
        match upgrade_target(d, inst.last()) {
            Some(p) => rest.push(p),
            None => rest,
        }
    }
}

/// The installed packages whose names are absent from the desired set,
/// in installed order.
pub open spec fn spec_to_remove(d: Seq<PackageView>, inst: Seq<PackageView>) -> Seq<PackageView>
    decreases inst.len(),
{
    if inst.len() == 0 {
        Seq::empty()
    } else {
        let rest = spec_to_remove(d, inst.drop_last());
        if !has_name(d, inst.last().name) {
            rest.push(inst.last())
        } else {
            rest
        }
    }
}

/// A name occurs in a nonempty list iff it occurs before the last element
/// or is the last element's.
proof fn lemma_has_name_unsnoc(s: Seq<PackageView>, n: Seq<char>)
    requires
        s.len() > 0,
    ensures
        has_name(s, n) <==> (has_name(s.drop_last(), n) || s.last().name == n),
{
    if has_name(s, n) {
        let i = choose|i: int| 0 <= i < s.len() && (#[trigger] s[i]).name == n;
        if i < s.len() - 1 {
            assert(s.drop_last()[i] == s[i]);
        }
    }
    if has_name(s.drop_last(), n) {
        let i = choose|i: int| 0 <= i < s.drop_last().len() && (#[trigger] s.drop_last()[i]).name
            == n;
        assert(s[i] == s.drop_last()[i]);
    }
}

/// A name occurs in a list with one more element iff it occurs in the list
/// or is the new element's.
proof fn lemma_has_name_push(s: Seq<PackageView>, p: PackageView, n: Seq<char>)
    ensures
        has_name(s.push(p), n) <==> (has_name(s, n) || p.name == n),
{
    assert(s.push(p).drop_last() =~= s);
    lemma_has_name_unsnoc(s.push(p), n);
}

/// The install list holds exactly the names desired but not installed.
pub proof fn lemma_install_names(d: Seq<PackageView>, inst: Seq<PackageView>, n: Seq<char>)
    ensures
        has_name(spec_to_install(d, inst), n) <==> (has_name(d, n) && !has_name(inst, n)),
    decreases d.len(),
{
    if d.len() == 0 {
        assert(!has_name(d, n));
        assert(!has_name(spec_to_install(d, inst), n));
    } else {
        lemma_install_names(d.drop_last(), inst, n);
        lemma_has_name_unsnoc(d, n);
        let rest = spec_to_install(d.drop_last(), inst);
        if !has_name(inst, d.last().name) {
            lemma_has_name_push(rest, d.last(), n);
        }
    }
}

/// The remove list holds exactly the names installed but not desired.
pub proof fn lemma_remove_names(d: Seq<PackageView>, inst: Seq<PackageView>, n: Seq<char>)
    ensures
        has_name(spec_to_remove(d, inst), n) <==> (has_name(inst, n) && !has_name(d, n)),
    decreases inst.len(),
{
    if inst.len() == 0 {
        assert(!has_name(inst, n));
        assert(!has_name(spec_to_remove(d, inst), n));
    } else {
        lemma_remove_names(d, inst.drop_last(), n);
        lemma_has_name_unsnoc(inst, n);
        let rest = spec_to_remove(d, inst.drop_last());
        if !has_name(d, inst.last().name) {
            lemma_has_name_push(rest, inst.last(), n);
        }
    }
}

/// The update list holds a name exactly when some installed package with
/// that name has an upgrade target in the desired set.
pub proof fn lemma_update_names(d: Seq<PackageView>, inst: Seq<PackageView>, n: Seq<char>)
    ensures
        has_name(spec_to_update(d, inst), n) <==> exists|j: int|
            0 <= j < inst.len() && (#[trigger] inst[j]).name == n && upgrade_target(d, inst[j])
                is Some,
    decreases inst.len(),
{
    if inst.len() == 0 {
        assert(!has_name(spec_to_update(d, inst), n));
    } else {
        lemma_update_names(d, inst.drop_last(), n);
        let rest = spec_to_update(d, inst.drop_last());
        let q = inst.last();
        assert(forall|j: int|
            0 <= j < inst.len() - 1 ==> inst.drop_last()[j] == #[trigger] inst[j]);
        match upgrade_target(d, q) {
            Some(p) => {
                lemma_named(d, q.name);
                assert(p.name == q.name);
                lemma_has_name_push(rest, p, n);
                if p.name == n {
                    assert(inst[inst.len() - 1].name == n && upgrade_target(
                        d,
                        inst[inst.len() - 1],
                    ) is Some);
                }
                if has_name(rest, n) {
                    let j = choose|j: int|
                        0 <= j < inst.drop_last().len() && (#[trigger] inst.drop_last()[j]).name
                            == n && upgrade_target(d, inst.drop_last()[j]) is Some;
                    assert(inst[j].name == n && upgrade_target(d, inst[j]) is Some);
                }
            },
            None => {
                if has_name(rest, n) {
                    let j = choose|j: int|
                        0 <= j < inst.drop_last().len() && (#[trigger] inst.drop_last()[j]).name
                            == n && upgrade_target(d, inst.drop_last()[j]) is Some;
                    assert(inst[j].name == n && upgrade_target(d, inst[j]) is Some);
                }
                if exists|j: int|
                    0 <= j < inst.len() && (#[trigger] inst[j]).name == n && upgrade_target(
                        d,
                        inst[j],
                    ) is Some {
                    let j = choose|j: int|
                        0 <= j < inst.len() && (#[trigger] inst[j]).name == n && upgrade_target(
                            d,
                            inst[j],
                        ) is Some;
                    assert(j < inst.len() - 1);
                    assert(inst.drop_last()[j].name == n && upgrade_target(d, inst.drop_last()[j])
                        is Some);
                }
            },
        }
    }
}

/// Appending a package with a fresh name keeps names unique.
proof fn lemma_unique_push(s: Seq<PackageView>, p: PackageView)
    requires
        unique_names(s),
        !has_name(s, p.name),
    ensures
        unique_names(s.push(p)),
{
    assert forall|i: int, j: int|
        0 <= i < j < s.push(p).len() implies (#[trigger] s.push(p)[i]).name != (#[trigger] s.push(
        p,
    )[j]).name by {
        if j < s.len() {
            assert(s.push(p)[i] == s[i] && s.push(p)[j] == s[j]);
        } else {
            assert(s.push(p)[i] == s[i]);
            if s[i].name == p.name {
                assert(has_name(s, p.name));
            }
        }
    }
}

/// Dropping the last package keeps names unique.
proof fn lemma_unique_drop_last(s: Seq<PackageView>)
    requires
        unique_names(s),
        s.len() > 0,
    ensures
        unique_names(s.drop_last()),
{
    assert(forall|i: int| 0 <= i < s.len() - 1 ==> s.drop_last()[i] == #[trigger] s[i]);
}

/// The install list of a unique-named desired set has unique names.
proof fn lemma_install_unique(d: Seq<PackageView>, inst: Seq<PackageView>)
    requires
        unique_names(d),
    ensures
        unique_names(spec_to_install(d, inst)),
    decreases d.len(),
{
    if d.len() > 0 {
        lemma_unique_drop_last(d);
        lemma_install_unique(d.drop_last(), inst);
        let rest = spec_to_install(d.drop_last(), inst);
        if !has_name(inst, d.last().name) {
            assert(!has_name(d.drop_last(), d.last().name)) by {
                if has_name(d.drop_last(), d.last().name) {
                    let i = choose|i: int|
                        0 <= i < d.drop_last().len() && (#[trigger] d.drop_last()[i]).name
                            == d.last().name;
                    assert(d[i].name == d[d.len() - 1].name);
                }
            }
            lemma_install_names(d.drop_last(), inst, d.last().name);
            lemma_unique_push(rest, d.last());
        }
    }
}

/// The remove list of a unique-named installed set has unique names.
proof fn lemma_remove_unique(d: Seq<PackageView>, inst: Seq<PackageView>)
    requires
        unique_names(inst),
    ensures
        unique_names(spec_to_remove(d, inst)),
    decreases inst.len(),
{
    if inst.len() > 0 {
        lemma_unique_drop_last(inst);
        lemma_remove_unique(d, inst.drop_last());
        let rest = spec_to_remove(d, inst.drop_last());
        if !has_name(d, inst.last().name) {
            assert(!has_name(inst.drop_last(), inst.last().name)) by {
                if has_name(inst.drop_last(), inst.last().name) {
                    let i = choose|i: int|
                        0 <= i < inst.drop_last().len() && (#[trigger] inst.drop_last()[i]).name
                            == inst.last().name;
                    assert(inst[i].name == inst[inst.len() - 1].name);
                }
            }
            lemma_remove_names(d, inst.drop_last(), inst.last().name);
            lemma_unique_push(rest, inst.last());
        }
    }
}

/// The update list of unique-named sets has unique names.
proof fn lemma_update_unique(d: Seq<PackageView>, inst: Seq<PackageView>)
    requires
        unique_names(inst),
    ensures
        unique_names(spec_to_update(d, inst)),
    decreases inst.len(),
{
    if inst.len() > 0 {
        lemma_unique_drop_last(inst);
        lemma_update_unique(d, inst.drop_last());
        let rest = spec_to_update(d, inst.drop_last());
        let q = inst.last();
        match upgrade_target(d, q) {
            Some(p) => {
                lemma_named(d, q.name);
                assert(p.name == q.name);
                assert(!has_name(rest, p.name)) by {
                    if has_name(rest, p.name) {
                        lemma_update_names(d, inst.drop_last(), p.name);
                        let j = choose|j: int|
                            0 <= j < inst.drop_last().len() && (#[trigger] inst.drop_last()[
                            j]).name == p.name && upgrade_target(d, inst.drop_last()[j]) is Some;
                        assert(inst[j].name == inst[inst.len() - 1].name);
                    }
                }
                lemma_unique_push(rest, p);
            },
            None => {},
        }
    }
}

/// Law: the three action lists of a plan computed from unique-named sets
/// are themselves sets: each holds at most one entry per name.
pub proof fn lemma_plan_unique_names(d: Seq<PackageView>, inst: Seq<PackageView>)
    requires
        unique_names(d),
        unique_names(inst),
    ensures
        unique_names(spec_to_install(d, inst)),
        unique_names(spec_to_update(d, inst)),
        unique_names(spec_to_remove(d, inst)),
{
    lemma_install_unique(d, inst);
    lemma_update_unique(d, inst);
    lemma_remove_unique(d, inst);
}

/// Law: for desired and installed sets with unique names, the plan's three
/// lists are pairwise disjoint by name, and the install names, the names
/// present in both sets, and the remove names together partition the names
/// of the two sets' union.
pub proof fn lemma_plan_partition(d: Seq<PackageView>, inst: Seq<PackageView>)
    requires
        unique_names(d),
        unique_names(inst),
    ensures
        forall|n: Seq<char>|
            #![trigger has_name(spec_to_install(d, inst), n)]
            #![trigger has_name(spec_to_update(d, inst), n)]
            !(has_name(spec_to_install(d, inst), n) && has_name(spec_to_update(d, inst), n)),
        forall|n: Seq<char>|
            #![trigger has_name(spec_to_install(d, inst), n)]
            #![trigger has_name(spec_to_remove(d, inst), n)]
            !(has_name(spec_to_install(d, inst), n) && has_name(spec_to_remove(d, inst), n)),
        forall|n: Seq<char>|
            #![trigger has_name(spec_to_update(d, inst), n)]
            #![trigger has_name(spec_to_remove(d, inst), n)]
            !(has_name(spec_to_update(d, inst), n) && has_name(spec_to_remove(d, inst), n)),
        forall|n: Seq<char>|
            #![trigger has_name(d, n)]
            #![trigger has_name(inst, n)]
            (has_name(d, n) || has_name(inst, n)) <==> (has_name(spec_to_install(d, inst), n) || (
            has_name(d, n) && has_name(inst, n)) || has_name(spec_to_remove(d, inst), n)),
{
    assert forall|n: Seq<char>|
        #![trigger has_name(spec_to_install(d, inst), n)]
        #![trigger has_name(spec_to_update(d, inst), n)]
        #![trigger has_name(spec_to_remove(d, inst), n)]
        #![trigger has_name(d, n)]
        #![trigger has_name(inst, n)]
        {
            &&& !(has_name(spec_to_install(d, inst), n) && has_name(spec_to_update(d, inst), n))
            &&& !(has_name(spec_to_install(d, inst), n) && has_name(spec_to_remove(d, inst), n))
            &&& !(has_name(spec_to_update(d, inst), n) && has_name(spec_to_remove(d, inst), n))
            &&& ((has_name(d, n) || has_name(inst, n)) <==> (has_name(spec_to_install(d, inst), n)
                || (has_name(d, n) && has_name(inst, n)) || has_name(spec_to_remove(d, inst), n)))
        } by {
        lemma_install_names(d, inst, n);
        lemma_remove_names(d, inst, n);
        lemma_update_names(d, inst, n);
        if has_name(spec_to_update(d, inst), n) {
            let j = choose|j: int|
                0 <= j < inst.len() && (#[trigger] inst[j]).name == n && upgrade_target(
                    d,
                    inst[j],
                ) is Some;
            assert(has_name(inst, n));
            assert(has_name(d, inst[j].name));
        }
    }
}

/// Law: reconciling a set against itself plans no action.
pub proof fn lemma_reconcile_idempotent(d: Seq<PackageView>)
    requires
        unique_names(d),
    ensures
        spec_to_install(d, d) == Seq::<PackageView>::empty(),
        spec_to_update(d, d) == Seq::<PackageView>::empty(),
        spec_to_remove(d, d) == Seq::<PackageView>::empty(),
{
    lemma_to_install_all_named(d, d);
    lemma_to_remove_all_named(d, d);
    lemma_self_no_target(d);
    lemma_to_update_no_target(d, d);
}

/// When every desired name is installed, nothing is planned for install.
proof fn lemma_to_install_all_named(d: Seq<PackageView>, inst: Seq<PackageView>)
    requires
        forall|i: int| 0 <= i < d.len() ==> has_name(inst, (#[trigger] d[i]).name),
    ensures
        spec_to_install(d, inst) == Seq::<PackageView>::empty(),
    decreases d.len(),
{
    if d.len() > 0 {
        assert(forall|i: int| 0 <= i < d.len() - 1 ==> d.drop_last()[i] == #[trigger] d[i]);
        lemma_to_install_all_named(d.drop_last(), inst);
        assert(has_name(inst, d[d.len() - 1].name));
    }
}

/// When every installed name is desired, nothing is planned for removal.
proof fn lemma_to_remove_all_named(d: Seq<PackageView>, inst: Seq<PackageView>)
    requires
        forall|j: int| 0 <= j < inst.len() ==> has_name(d, (#[trigger] inst[j]).name),
    ensures
        spec_to_remove(d, inst) == Seq::<PackageView>::empty(),
    decreases inst.len(),
{
    if inst.len() > 0 {
        assert(forall|j: int|
            0 <= j < inst.len() - 1 ==> inst.drop_last()[j] == #[trigger] inst[j]);
        lemma_to_remove_all_named(d, inst.drop_last());
        assert(has_name(d, inst[inst.len() - 1].name));
    }
}

/// When no installed package has an upgrade target, nothing is updated.
proof fn lemma_to_update_no_target(d: Seq<PackageView>, inst: Seq<PackageView>)
    requires
        forall|j: int| 0 <= j < inst.len() ==> upgrade_target(d, #[trigger] inst[j]) is None,
    ensures
        spec_to_update(d, inst) == Seq::<PackageView>::empty(),
    decreases inst.len(),
{
    if inst.len() > 0 {
        assert(forall|j: int|
            0 <= j < inst.len() - 1 ==> inst.drop_last()[j] == #[trigger] inst[j]);
        lemma_to_update_no_target(d, inst.drop_last());
        assert(upgrade_target(d, inst[inst.len() - 1]) is None);
    }
}

/// A set with unique names never upgrades against itself: each package's
/// only counterpart is itself, and no version is strictly below itself.
proof fn lemma_self_no_target(d: Seq<PackageView>)
    requires
        unique_names(d),
    ensures
        forall|j: int| 0 <= j < d.len() ==> upgrade_target(d, #[trigger] d[j]) is None,
{
    assert forall|j: int| 0 <= j < d.len() implies upgrade_target(d, #[trigger] d[j]) is None by {
        assert(has_name(d, d[j].name));
        lemma_named(d, d[j].name);
        assert(named(d, d[j].name) == d[j]);
        crate::version::lemma_version_lt_irrefl(d[j].version);
    }
}

/// Law: for a name present in both sets (each with unique names), the
/// update list holds it exactly when the desired version is strictly above
/// the installed one. Raising the desired version strictly above the
/// installed one moves the package into the update list; lowering it to or
/// below the installed version removes it.
pub proof fn lemma_update_monotonic(d: Seq<PackageView>, inst: Seq<PackageView>, n: Seq<char>)
    requires
        unique_names(d),
        unique_names(inst),
        has_name(d, n),
        has_name(inst, n),
    ensures
        has_name(spec_to_update(d, inst), n) <==> version_lt(
            named(inst, n).version,
            named(d, n).version,
        ),
{
    lemma_update_names(d, inst, n);
    lemma_named(d, n);
    lemma_named(inst, n);
    if has_name(spec_to_update(d, inst), n) {
        let j = choose|j: int|
            0 <= j < inst.len() && (#[trigger] inst[j]).name == n && upgrade_target(d, inst[j])
                is Some;
        assert(inst[j] == named(inst, n));
    } else {
        if version_lt(named(inst, n).version, named(d, n).version) {
            let w = choose|i: int| 0 <= i < inst.len() && (#[trigger] inst[i]).name == n;
            assert(inst[w] == named(inst, n));
            assert(upgrade_target(d, inst[w]) is Some);
        }
    }
}

/// The first index in `v` holding a package named `name`, if any.
fn find_by_name(v: &Vec<Package>, name: &String) -> (r: Option<usize>)
    ensures
        match r {
            Some(k) => k < v@.len() && v@[k as int]@.name == name@ && has_name(views(v@), name@),
            None => !has_name(views(v@), name@),
        },
{
    let mut i: usize = 0;
    while i < v.len()
        invariant
            0 <= i <= v@.len(),
            forall|k: int| 0 <= k < i ==> (#[trigger] views(v@)[k]).name != name@,
        decreases v@.len() - i,
    {
        if v[i].name == *name {
            proof {
                assert(views(v@)[i as int].name == name@);
            }
            return Some(i);
        }
        i = i + 1;
    }
    None
}

/// Computes the reconciliation plan for a desired and an installed set:
/// `to_install` holds the desired packages not installed, `to_update` the
/// desired records strictly newer than their installed counterparts,
/// `to_remove` the installed packages no longer desired. A skip flag
/// empties the corresponding list. Pure: neither input is modified.
pub fn reconcile(
    desired: &Vec<Package>,
    installed: &Vec<Package>,
    skip_install: bool,
    skip_update: bool,
    skip_remove: bool,
) -> (plan: ReconciliationPlan)
    requires
        unique_names(views(desired@)),
        unique_names(views(installed@)),
    ensures
        views(plan.to_install@) == if skip_install {
            Seq::<PackageView>::empty()
        } else {
            spec_to_install(views(desired@), views(installed@))
        },
        views(plan.to_update@) == if skip_update {
            Seq::<PackageView>::empty()
        } else {
            spec_to_update(views(desired@), views(installed@))
        },
        views(plan.to_remove@) == if skip_remove {
            Seq::<PackageView>::empty()
        } else {
            spec_to_remove(views(desired@), views(installed@))
        },
{
    let ghost dvs = views(desired@);
    let ghost ivs = views(installed@);

    let mut to_install: Vec<Package> = Vec::new();
    if !skip_install {
        let mut i: usize = 0;
        proof {
            assert(views(to_install@) =~= spec_to_install(dvs.take(0), ivs));
        }
        while i < desired.len()
            invariant
                0 <= i <= desired@.len(),
                dvs == views(desired@),
                ivs == views(installed@),
                dvs.len() == desired@.len(),
                views(to_install@) == spec_to_install(dvs.take(i as int), ivs),
            decreases desired@.len() - i,
        {
            proof {
                assert(dvs.take(i + 1).drop_last() =~= dvs.take(i as int));
                assert(dvs.take(i + 1).last() == dvs[i as int]);
                assert(dvs[i as int] == desired@[i as int]@);
            }
            match find_by_name(installed, &desired[i].name) {
                None => {
                    let ghost old_list = to_install@;
                    let p = desired[i].duplicate();
                    to_install.push(p);
                    proof {
                        assert(views(to_install@) =~= views(old_list).push(p@));
                        assert(views(to_install@) =~= spec_to_install(dvs.take(i + 1), ivs));
                    }
                },
                Some(_) => {
                    proof {
                        assert(views(to_install@) =~= spec_to_install(dvs.take(i + 1), ivs));
                    }
                },
            }
            i = i + 1;
        }
        proof {
            assert(dvs.take(dvs.len() as int) =~= dvs);
        }
    }

    let mut to_update: Vec<Package> = Vec::new();
    if !skip_update {
        let mut j: usize = 0;
        proof {
            assert(views(to_update@) =~= spec_to_update(dvs, ivs.take(0)));
        }
        while j < installed.len()
            invariant
                0 <= j <= installed@.len(),
                dvs == views(desired@),
                ivs == views(installed@),
                ivs.len() == installed@.len(),
                unique_names(dvs),
                views(to_update@) == spec_to_update(dvs, ivs.take(j as int)),
            decreases installed@.len() - j,
        {
            proof {
                assert(ivs.take(j + 1).drop_last() =~= ivs.take(j as int));
                assert(ivs.take(j + 1).last() == ivs[j as int]);
                assert(ivs[j as int] == installed@[j as int]@);
            }
            match find_by_name(desired, &installed[j].name) {
                None => {
                    proof {
                        assert(upgrade_target(dvs, ivs[j as int]) is None);
                        assert(views(to_update@) =~= spec_to_update(dvs, ivs.take(j + 1)));
                    }
                },
                Some(k) => {
                    proof {
                        lemma_named(dvs, ivs[j as int].name);
                        assert(dvs[k as int] == named(dvs, ivs[j as int].name));
                    }
                    if installed[j].version.lt(&desired[k].version) {
                        let ghost old_list = to_update@;
                        let p = desired[k].duplicate();
                        to_update.push(p);
                        proof {
                            assert(upgrade_target(dvs, ivs[j as int]) == Some(p@));
                            assert(views(to_update@) =~= views(old_list).push(p@));
                            assert(views(to_update@) =~= spec_to_update(dvs, ivs.take(j + 1)));
                        }
                    } else {
                        proof {
                            assert(upgrade_target(dvs, ivs[j as int]) is None);
                            assert(views(to_update@) =~= spec_to_update(dvs, ivs.take(j + 1)));
                        }
                    }
                },
            }
            j = j + 1;
        }
        proof {
            assert(ivs.take(ivs.len() as int) =~= ivs);
        }
    }

    let mut to_remove: Vec<Package> = Vec::new();
    if !skip_remove {
        let mut j: usize = 0;
        proof {
            assert(views(to_remove@) =~= spec_to_remove(dvs, ivs.take(0)));
        }
        while j < installed.len()
            invariant
                0 <= j <= installed@.len(),
                dvs == views(desired@),
                ivs == views(installed@),
                ivs.len() == installed@.len(),
                views(to_remove@) == spec_to_remove(dvs, ivs.take(j as int)),
            decreases installed@.len() - j,
        {
            proof {
                assert(ivs.take(j + 1).drop_last() =~= ivs.take(j as int));
                assert(ivs.take(j + 1).last() == ivs[j as int]);
                assert(ivs[j as int] == installed@[j as int]@);
            }
            match find_by_name(desired, &installed[j].name) {
                None => {
                    let ghost old_list = to_remove@;
                    let p = installed[j].duplicate();
                    to_remove.push(p);
                    proof {
                        assert(views(to_remove@) =~= views(old_list).push(p@));
                        assert(views(to_remove@) =~= spec_to_remove(dvs, ivs.take(j + 1)));
                    }
                },
                Some(_) => {
                    proof {
                        assert(views(to_remove@) =~= spec_to_remove(dvs, ivs.take(j + 1)));
                    }
                },
            }
            j = j + 1;
        }
        proof {
            assert(ivs.take(ivs.len() as int) =~= ivs);
        }
    }

    ReconciliationPlan { to_install, to_update, to_remove }
}

} // verus!
