//! The package-state planner: it diffs the desired packages of a merged
//! configuration against the machine's installed set and the `managed`
//! ledger, and emits the install and remove actions that converge them.
//!
//! The planner is pure: the installed set and the package-group database
//! are passed in as values, queried once by the caller.

use vstd::prelude::*;

use crate::config::{assoc_get, Config};
use crate::state::PackageState;
use crate::strutil;

verus! {

/// One planned package operation.
#[derive(Debug, Clone)]
pub enum PackageAction {
    Install { name: String },
    Remove { name: String },
}

/// One group of the package manager's group database: the group name and
/// its member packages.
#[derive(Debug, Clone)]
pub struct PkgGroup {
    pub name: String,
    pub members: Vec<String>,
}

impl View for PkgGroup {
    type V = (Seq<char>, Seq<Seq<char>>);

    open spec fn view(&self) -> (Seq<char>, Seq<Seq<char>>) {
        (self.name@, self.members.deep_view())
    }
}

/// The entry sequence of a group database.
pub open spec fn groups_view(s: Seq<PkgGroup>) -> Seq<(Seq<char>, Seq<Seq<char>>)> {
    s.map_values(|g: PkgGroup| g@)
}

/// A name counts as installed when it is an installed package, or when it
/// names a non-empty group whose members are all installed.
pub open spec fn spec_installed(
    name: Seq<char>,
    installed: Seq<Seq<char>>,
    groups: Seq<(Seq<char>, Seq<Seq<char>>)>,
) -> bool {
    installed.contains(name) || (match assoc_get(groups, name) {
        Some(members) => members.len() > 0 && forall|i: int|
            0 <= i < members.len() ==> installed.contains(#[trigger] members[i]),
        None => false,
    })
}

/// The action installs `p`.
pub open spec fn is_install(a: PackageAction, p: Seq<char>) -> bool {
    match a {
        PackageAction::Install { name } => name@ == p,
        PackageAction::Remove { .. } => false,
    }
}

/// The action removes `p`.
pub open spec fn is_remove(a: PackageAction, p: Seq<char>) -> bool {
    match a {
        PackageAction::Install { .. } => false,
        PackageAction::Remove { name } => name@ == p,
    }
}

/// Some action of `s` installs `p`.
pub open spec fn has_install(s: Seq<PackageAction>, p: Seq<char>) -> bool {
    exists|i: int| 0 <= i < s.len() && is_install(#[trigger] s[i], p)
}

/// Some action of `s` removes `p`.
pub open spec fn has_remove(s: Seq<PackageAction>, p: Seq<char>) -> bool {
    exists|i: int| 0 <= i < s.len() && is_remove(#[trigger] s[i], p)
}

/// The package an action names.
pub open spec fn action_name(a: PackageAction) -> Seq<char> {
    match a {
        PackageAction::Install { name } => name@,
        PackageAction::Remove { name } => name@,
    }
}

/// No two actions name the same package.
pub open spec fn actions_distinct(s: Seq<PackageAction>) -> bool {
    forall|i: int, j: int| 0 <= i < j < s.len() ==> action_name(s[i]) != action_name(s[j])
}

/// Whether `name` counts as installed, as [`spec_installed`] describes.
pub fn is_package_or_group_installed(
    name: &str,
    installed: &Vec<String>,
    groups: &Vec<PkgGroup>,
) -> (r: bool)
    ensures
        r == spec_installed(name@, installed.deep_view(), groups_view(groups@)),
{
    if strutil::contains_string(installed, name) {
        return true;
    }
    let ghost gv = groups_view(groups@);
    let n: usize = groups.len();
    let mut i: usize = 0;
    proof {
        assert(gv.skip(0) =~= gv);
    }
    while i < n
        invariant
            0 <= i <= n,
            n == groups.len(),
            gv == groups_view(groups@),
            !installed.deep_view().contains(name@),
            assoc_get(gv, name@) == assoc_get(gv.skip(i as int), name@),
        decreases n - i,
    {
        proof {
            assert(gv.skip(i as int)[0] == gv[i as int]);
            assert(gv.skip(i as int).drop_first() =~= gv.skip(i + 1));
        }
        if strutil::str_eq(groups[i].name.as_str(), name) {
            let members = &groups[i].members;
            proof {
                assert(gv[i as int] == groups@[i as int]@);
                assert(gv[i as int].1 == members.deep_view());
                assert(assoc_get(gv, name@) == Some(members.deep_view()));
            }
            let mn: usize = members.len();
            if mn == 0 {
                proof {
                    assert(members.deep_view().len() == 0);
                }
                return false;
            }
            let mut j: usize = 0;
            while j < mn
                invariant
                    0 <= j <= mn,
                    mn == members.len(),
                    gv == groups_view(groups@),
                    !installed.deep_view().contains(name@),
                    assoc_get(gv, name@) == Some(members.deep_view()),
                    forall|k: int|
                        0 <= k < j ==> installed.deep_view().contains(
                            #[trigger] members.deep_view()[k],
                        ),
                decreases mn - j,
            {
                if !strutil::contains_string(installed, members[j].as_str()) {
                    proof {
                        assert(members.deep_view()[j as int] == members@[j as int]@);
                    }
                    return false;
                }
                j = j + 1;
            }
            return true;
        }
        i = i + 1;
    }
    false
}

/// Plans the package actions: `Install { p }` appears exactly for each
/// desired package `p` that does not count as installed, `Remove { p }`
/// exactly for each installed package `p` that is neither desired nor
/// outside the `managed` ledger, and each name at most once. Desired
/// packages are visited in declaration order, installed packages in the
/// given order.
pub fn plan_package_actions(
    config: &Config,
    state: &PackageState,
    installed: &Vec<String>,
    groups: &Vec<PkgGroup>,
) -> (r: Vec<PackageAction>)
    requires
        config.wf(),
        crate::chain::no_dup(installed.deep_view()),
    ensures
        forall|p: Seq<char>|
            #[trigger] has_install(r@, p) == (assoc_get(config@.packages, p) is Some
                && !spec_installed(p, installed.deep_view(), groups_view(groups@))),
        forall|p: Seq<char>|
            #[trigger] has_remove(r@, p) == (installed.deep_view().contains(p) && assoc_get(
                config@.packages,
                p,
            ) is None && state.managed.deep_view().contains(p)),
        actions_distinct(r@),
{
    let ghost iv = installed.deep_view();
    let ghost gv = groups_view(groups@);
    let mut actions: Vec<PackageAction> = Vec::new();
    let pn: usize = config.packages.entries.len();
    let mut i: usize = 0;
    while i < pn
        invariant
            0 <= i <= pn,
            pn == config.packages.entries.len(),
            iv == installed.deep_view(),
            gv == groups_view(groups@),
            config.wf(),
            forall|p: Seq<char>|
                #[trigger] has_install(actions@, p) == (exists|j: int|
                    0 <= j < i && config@.packages[j].0 == p && !spec_installed(p, iv, gv)),
            forall|p: Seq<char>| !#[trigger] has_remove(actions@, p),
            actions_distinct(actions@),
        decreases pn - i,
    {
        let name = &config.packages.entries[i].name;
        if !is_package_or_group_installed(name.as_str(), installed, groups) {
            let ghost before = actions@;
            actions.push(PackageAction::Install { name: name.clone() });
            proof {
                assert(actions@.len() == before.len() + 1);
                assert(is_install(actions@[before.len() as int], name@));
                assert(config@.packages[i as int].0 == name@);
                assert forall|p: Seq<char>| #[trigger] has_install(actions@, p) implies (
                exists|j: int|
                    0 <= j < i + 1 && config@.packages[j].0 == p && !spec_installed(
                        p,
                        iv,
                        gv,
                    )) by {
                    let k = choose|k: int|
                        0 <= k < actions@.len() && is_install(#[trigger] actions@[k], p);
                    if k < before.len() {
                        assert(has_install(before, p));
                    } else {
                        assert(p == name@);
                        assert(config@.packages[i as int].0 == p);
                    }
                }
                assert forall|p: Seq<char>|
                    (exists|j: int|
                        0 <= j < i + 1 && config@.packages[j].0 == p && !spec_installed(
                            p,
                            iv,
                            gv,
                        )) implies #[trigger] has_install(actions@, p) by {
                    let j = choose|j: int|
                        0 <= j < i + 1 && config@.packages[j].0 == p && !spec_installed(
                            p,
                            iv,
                            gv,
                        );
                    if j < i {
                        assert(has_install(before, p));
                        let k = choose|k: int|
                            0 <= k < before.len() && is_install(#[trigger] before[k], p);
                        assert(is_install(actions@[k], p));
                    } else {
                        assert(is_install(actions@[before.len() as int], p));
                    }
                }
                assert forall|p: Seq<char>| !#[trigger] has_remove(actions@, p) by {
                    if has_remove(actions@, p) {
                        let k = choose|k: int|
                            0 <= k < actions@.len() && is_remove(#[trigger] actions@[k], p);
                        if k < before.len() {
                            assert(has_remove(before, p));
                        }
                    }
                }
                // The new install names a package no earlier action names:
                // earlier installs name other declared packages, and there
                // are no removes yet.
                assert forall|q: int, t: int|
                    0 <= q < t < actions@.len() implies action_name(actions@[q]) != action_name(
                    actions@[t],
                ) by {
                    if t < before.len() {
                        assert(action_name(before[q]) != action_name(before[t]));
                    } else {
                        assert(action_name(actions@[t]) == name@);
                        match actions@[q] {
                            PackageAction::Install { name: n } => {
                                assert(is_install(before[q], n@));
                                assert(has_install(before, n@));
                                let j = choose|j: int|
                                    0 <= j < i && config@.packages[j].0 == n@ && !spec_installed(
                                        n@,
                                        iv,
                                        gv,
                                    );
                                if n@ == name@ {
                                    assert(config@.packages[j].0 == config@.packages[i as int].0);
                                }
                            },
                            PackageAction::Remove { name: n } => {
                                assert(is_remove(before[q], n@));
                                assert(has_remove(before, n@));
                            },
                        }
                    }
                }
            }
        } else {
            proof {
                assert(config@.packages[i as int].0 == config.packages.entries[i as int].name@);
                assert forall|p: Seq<char>|
                    (exists|j: int|
                        0 <= j < i + 1 && config@.packages[j].0 == p && !spec_installed(
                            p,
                            iv,
                            gv,
                        )) implies #[trigger] has_install(actions@, p) by {
                    let j = choose|j: int|
                        0 <= j < i + 1 && config@.packages[j].0 == p && !spec_installed(
                            p,
                            iv,
                            gv,
                        );
                    assert(j < i || p == config@.packages[i as int].0);
                }
            }
        }
        i = i + 1;
    }
    let ghost installs_done = actions@;
    proof {
        assert forall|p: Seq<char>| #[trigger] has_install(actions@, p) implies assoc_get(
            config@.packages,
            p,
        ) is Some by {
            let j = choose|j: int|
                0 <= j < pn && config@.packages[j].0 == p && !spec_installed(p, iv, gv);
            lemma_key_at_index_found(config@.packages, j, p);
        }
    }
    let rn: usize = installed.len();
    let mut k: usize = 0;
    while k < rn
        invariant
            0 <= k <= rn,
            rn == installed.len(),
            iv == installed.deep_view(),
            gv == groups_view(groups@),
            crate::chain::no_dup(iv),
            forall|p: Seq<char>| #[trigger] has_install(actions@, p) == has_install(
                installs_done,
                p,
            ),
            forall|p: Seq<char>|
                #[trigger] has_install(actions@, p) ==> assoc_get(config@.packages, p) is Some,
            forall|p: Seq<char>|
                #[trigger] has_remove(actions@, p) == (exists|j: int|
                    0 <= j < k && iv[j] == p && assoc_get(config@.packages, p) is None
                        && state.managed.deep_view().contains(p)),
            actions_distinct(actions@),
        decreases rn - k,
    {
        let pkg = &installed[k];
        let desired = config.packages.contains_key(pkg.as_str());
        let managed = state.is_managed(pkg.as_str());
        let ghost before = actions@;
        if !desired && managed {
            actions.push(PackageAction::Remove { name: pkg.clone() });
            proof {
                assert(actions@.len() == before.len() + 1);
                assert(is_remove(actions@[before.len() as int], pkg@));
                assert(iv[k as int] == pkg@);
                assert forall|p: Seq<char>| #[trigger] has_install(actions@, p) == has_install(
                    installs_done,
                    p,
                ) by {
                    if has_install(actions@, p) {
                        let q = choose|q: int|
                            0 <= q < actions@.len() && is_install(#[trigger] actions@[q], p);
                        assert(q < before.len());
                        assert(has_install(before, p));
                    }
                    if has_install(before, p) {
                        let q = choose|q: int|
                            0 <= q < before.len() && is_install(#[trigger] before[q], p);
                        assert(is_install(actions@[q], p));
                    }
                }
                assert forall|p: Seq<char>| #[trigger] has_remove(actions@, p) implies (
                exists|j: int|
                    0 <= j < k + 1 && iv[j] == p && assoc_get(config@.packages, p) is None
                        && state.managed.deep_view().contains(p)) by {
                    let q = choose|q: int|
                        0 <= q < actions@.len() && is_remove(#[trigger] actions@[q], p);
                    if q < before.len() {
                        assert(has_remove(before, p));
                    } else {
                        assert(p == pkg@);
                        assert(iv[k as int] == p);
                    }
                }
                assert forall|p: Seq<char>|
                    (exists|j: int|
                        0 <= j < k + 1 && iv[j] == p && assoc_get(config@.packages, p) is None
                            && state.managed.deep_view().contains(p)) implies #[trigger] has_remove(
                    actions@,
                    p,
                ) by {
                    let j = choose|j: int|
                        0 <= j < k + 1 && iv[j] == p && assoc_get(config@.packages, p) is None
                            && state.managed.deep_view().contains(p);
                    if j < k {
                        assert(has_remove(before, p));
                        let q = choose|q: int|
                            0 <= q < before.len() && is_remove(#[trigger] before[q], p);
                        assert(is_remove(actions@[q], p));
                    } else {
                        assert(is_remove(actions@[before.len() as int], p));
                    }
                }
                assert forall|p: Seq<char>| #[trigger] has_install(actions@, p) implies assoc_get(
                    config@.packages,
                    p,
                ) is Some by {
                    assert(has_install(installs_done, p));
                    assert(has_install(before, p));
                }
                // The new removal names a package no earlier action names:
                // installs name declared packages, this one is undeclared,
                // and earlier removals name earlier installed entries,
                // distinct by the set-ness of the installed list.
                assert forall|q: int, t: int|
                    0 <= q < t < actions@.len() implies action_name(actions@[q]) != action_name(
                    actions@[t],
                ) by {
                    if t < before.len() {
                        assert(action_name(before[q]) != action_name(before[t]));
                    } else {
                        assert(action_name(actions@[t]) == pkg@);
                        match actions@[q] {
                            PackageAction::Install { name: n } => {
                                assert(is_install(before[q], n@));
                                assert(has_install(before, n@));
                                assert(assoc_get(config@.packages, n@) is Some);
                            },
                            PackageAction::Remove { name: n } => {
                                assert(is_remove(before[q], n@));
                                assert(has_remove(before, n@));
                                if n@ == pkg@ {
                                    let j = choose|j: int|
                                        0 <= j < k && iv[j] == n@ && assoc_get(
                                            config@.packages,
                                            n@,
                                        ) is None && state.managed.deep_view().contains(n@);
                                    assert(iv[j] == iv[k as int]);
                                }
                            },
                        }
                    }
                }
            }
        } else {
            proof {
                assert(iv[k as int] == pkg@);
                assert forall|p: Seq<char>|
                    (exists|j: int|
                        0 <= j < k + 1 && iv[j] == p && assoc_get(config@.packages, p) is None
                            && state.managed.deep_view().contains(p)) implies #[trigger] has_remove(
                    actions@,
                    p,
                ) by {
                    let j = choose|j: int|
                        0 <= j < k + 1 && iv[j] == p && assoc_get(config@.packages, p) is None
                            && state.managed.deep_view().contains(p);
                    assert(j < k || p == pkg@);
                }
            }
        }
        k = k + 1;
    }
    proof {
        assert forall|p: Seq<char>|
            #[trigger] has_install(actions@, p) == (assoc_get(config@.packages, p) is Some
                && !spec_installed(p, iv, gv)) by {
            if assoc_get(config@.packages, p) is Some {
                crate::config::lemma_assoc_get_entry(config@.packages, p);
            }
            if has_install(actions@, p) {
                let j = choose|j: int|
                    0 <= j < pn && config@.packages[j].0 == p && !spec_installed(p, iv, gv);
                lemma_key_at_index_found(config@.packages, j, p);
            }
        }
        assert forall|p: Seq<char>|
            #[trigger] has_remove(actions@, p) == (iv.contains(p) && assoc_get(
                config@.packages,
                p,
            ) is None && state.managed.deep_view().contains(p)) by {
            if iv.contains(p) {
                let j = choose|j: int| 0 <= j < iv.len() && iv[j] == p;
            }
        }
    }
    actions
}

/// The names of `s` whose presence in `avail` equals `want`, in order.
pub open spec fn keep_by_presence(
    s: Seq<Seq<char>>,
    avail: Seq<Seq<char>>,
    want: bool,
) -> Seq<Seq<char>>
    decreases s.len(),
{
    if s.len() == 0 {
        Seq::empty()
    } else {
        keep_by_presence(s.drop_last(), avail, want) + (if avail.contains(s.last()) == want {
            seq![s.last()]
        } else {
            Seq::<Seq<char>>::empty()
        })
    }
}

/// Splits `packages` into those present in `available` — repository
/// packages — and the rest, which must come from another source; both
/// sides keep their order, as [`keep_by_presence`] describes.
pub fn categorize_packages(packages: &Vec<String>, available: &Vec<String>) -> (r: (
    Vec<String>,
    Vec<String>,
))
    ensures
        r.0.deep_view() == keep_by_presence(packages.deep_view(), available.deep_view(), true),
        r.1.deep_view() == keep_by_presence(packages.deep_view(), available.deep_view(), false),
{
    let n: usize = packages.len();
    let mut repo: Vec<String> = Vec::new();
    let mut aur: Vec<String> = Vec::new();
    let mut i: usize = 0;
    proof {
        assert(keep_by_presence(packages.deep_view().subrange(0, 0), available.deep_view(), true)
            =~= repo.deep_view());
        assert(keep_by_presence(packages.deep_view().subrange(0, 0), available.deep_view(), false)
            =~= aur.deep_view());
    }
    while i < n
        invariant
            0 <= i <= n,
            n == packages.len(),
            repo.deep_view() == keep_by_presence(
                packages.deep_view().subrange(0, i as int),
                available.deep_view(),
                true,
            ),
            aur.deep_view() == keep_by_presence(
                packages.deep_view().subrange(0, i as int),
                available.deep_view(),
                false,
            ),
        decreases n - i,
    {
        proof {
            let cur = packages.deep_view().subrange(0, i + 1);
            assert(cur.drop_last() =~= packages.deep_view().subrange(0, i as int));
            assert(cur.last() == packages.deep_view()[i as int]);
        }
        if strutil::contains_string(available, packages[i].as_str()) {
            let ghost before = repo.deep_view();
            repo.push(packages[i].clone());
            proof {
                assert(repo.deep_view() =~= before.push(packages.deep_view()[i as int]));
                assert(aur.deep_view() =~= keep_by_presence(
                    packages.deep_view().subrange(0, i + 1),
                    available.deep_view(),
                    false,
                ));
            }
        } else {
            let ghost before = aur.deep_view();
            aur.push(packages[i].clone());
            proof {
                assert(aur.deep_view() =~= before.push(packages.deep_view()[i as int]));
                assert(repo.deep_view() =~= keep_by_presence(
                    packages.deep_view().subrange(0, i + 1),
                    available.deep_view(),
                    true,
                ));
            }
        }
        i = i + 1;
    }
    proof {
        assert(packages.deep_view().subrange(0, n as int) =~= packages.deep_view());
    }
    (repo, aur)
}

/// The desired package names that are not installed, in declaration order.
pub open spec fn uninstalled_spec(
    names: Seq<Seq<char>>,
    installed: Seq<Seq<char>>,
) -> Seq<Seq<char>> {
    keep_by_presence(names, installed, false)
}

/// The packages the configuration declares that are not in the installed
/// set, in declaration order, as [`uninstalled_spec`] describes.
pub fn get_uninstalled_packages(config: &Config, installed: &Vec<String>) -> (r: Vec<String>)
    ensures
        r.deep_view() == uninstalled_spec(
            crate::config::assoc_keys(config@.packages),
            installed.deep_view(),
        ),
{
    let ghost names = crate::config::assoc_keys(config@.packages);
    let n: usize = config.packages.entries.len();
    let mut out: Vec<String> = Vec::new();
    let mut i: usize = 0;
    proof {
        assert(keep_by_presence(names.subrange(0, 0), installed.deep_view(), false)
            =~= out.deep_view());
    }
    while i < n
        invariant
            0 <= i <= n,
            n == config.packages.entries.len(),
            names == crate::config::assoc_keys(config@.packages),
            out.deep_view() == keep_by_presence(
                names.subrange(0, i as int),
                installed.deep_view(),
                false,
            ),
        decreases n - i,
    {
        proof {
            let cur = names.subrange(0, i + 1);
            assert(cur.drop_last() =~= names.subrange(0, i as int));
            assert(cur.last() == names[i as int]);
            assert(names[i as int] == config@.packages[i as int].0);
        }
        if !strutil::contains_string(installed, config.packages.entries[i].name.as_str()) {
            let ghost before = out.deep_view();
            out.push(config.packages.entries[i].name.clone());
            proof {
                assert(out.deep_view() =~= before.push(names[i as int]));
            }
        }
        i = i + 1;
    }
    proof {
        assert(names.subrange(0, n as int) =~= names);
    }
    out
}

/// What adopting the desired, installed, not-yet-managed packages does to
/// the `managed` list, name by name — a name counts as installed
/// group-aware, as [`spec_installed`] describes: the new list and whether
/// it grew.
pub open spec fn seed_spec(
    names: Seq<Seq<char>>,
    installed: Seq<Seq<char>>,
    groups: Seq<(Seq<char>, Seq<Seq<char>>)>,
    managed: Seq<Seq<char>>,
) -> (Seq<Seq<char>>, bool)
    decreases names.len(),
{
    if names.len() == 0 {
        (managed, false)
    } else {
        let grow = !managed.contains(names[0]) && spec_installed(names[0], installed, groups);
        let m1 = if grow {
            crate::state::add_name_spec(managed, names[0])
        } else {
            managed
        };
        let rest = seed_spec(names.drop_first(), installed, groups, m1);
        (rest.0, grow || rest.1)
    }
}

/// Adopts on sight: every package the configuration declares that already
/// counts as installed — itself, or as a group whose members all are —
/// but is not yet managed is added to the `managed` list, as [`seed_spec`]
/// describes. Returns whether the list changed.
pub fn seed_managed_with_desired_installed(
    config: &Config,
    state: &mut PackageState,
    installed: &Vec<String>,
    groups: &Vec<PkgGroup>,
) -> (changed: bool)
    ensures
        ({
            let s = seed_spec(
                crate::config::assoc_keys(config@.packages),
                installed.deep_view(),
                groups_view(groups@),
                old(state).managed.deep_view(),
            );
            final(state).managed.deep_view() == s.0 && changed == s.1
        }),
        final(state).untracked == old(state).untracked,
        final(state).hidden == old(state).hidden,
{
    let ghost names = crate::config::assoc_keys(config@.packages);
    let ghost iv = installed.deep_view();
    let ghost gv = groups_view(groups@);
    let n: usize = config.packages.entries.len();
    let mut changed: bool = false;
    let mut i: usize = 0;
    proof {
        assert(names.skip(0) =~= names);
    }
    while i < n
        invariant
            0 <= i <= n,
            n == config.packages.entries.len(),
            names == crate::config::assoc_keys(config@.packages),
            iv == installed.deep_view(),
            gv == groups_view(groups@),
            seed_spec(names, iv, gv, old(state).managed.deep_view()) == (
                seed_spec(names.skip(i as int), iv, gv, state.managed.deep_view()).0,
                changed || seed_spec(names.skip(i as int), iv, gv, state.managed.deep_view()).1,
            ),
            state.untracked == old(state).untracked,
            state.hidden == old(state).hidden,
        decreases n - i,
    {
        proof {
            assert(names.skip(i as int)[0] == names[i as int]);
            assert(names.skip(i as int).drop_first() =~= names.skip(i + 1));
            assert(names[i as int] == config@.packages[i as int].0);
        }
        let name = &config.packages.entries[i].name;
        if !state.is_managed(name.as_str()) && is_package_or_group_installed(
            name.as_str(),
            installed,
            groups,
        ) {
            state.add_managed(name.clone());
            changed = true;
        }
        i = i + 1;
    }
    proof {
        assert(names.skip(n as int) =~= Seq::<Seq<char>>::empty());
    }
    changed
}

/// A key at some index is found by `assoc_get`.
proof fn lemma_key_at_index_found<T>(s: Seq<(Seq<char>, T)>, j: int, p: Seq<char>)
    requires
        0 <= j < s.len(),
        s[j].0 == p,
    ensures
        assoc_get(s, p) is Some,
    decreases s.len(),
{
    if s.len() > 0 && s[0].0 != p {
        assert(j > 0);
        assert(s.drop_first()[j - 1] == s[j]);
        lemma_key_at_index_found(s.drop_first(), j - 1, p);
    }
}

} // verus!
