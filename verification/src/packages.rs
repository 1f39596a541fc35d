//! Gathering information about declared and installed packages, and working
//! out what has to be done to make the second match the first.

use vstd::prelude::*;
use crate::command::Output;
use crate::pacman::{
    query_answered, query_error, query_names, query_result, InstallReason, PacmanError,
    QueryFilter,
};
use crate::text::{
    contains, distinct_keys, first_values, has_key, insert_sorted, key_set, lemma_first_values_dom,
    lemma_first_values_next, name_set, names, strictly_sorted,
};

verus! {

/// Packages currently installed on the system, as lists of names. Only the
/// set of names in each list matters.
#[derive(Debug)]
pub struct InstalledPackages {
    pub explicit: Vec<String>,
    pub dependencies: Vec<String>,
    pub unneeded: Vec<String>,
}

/// The installed packages as three sets of names.
pub struct InstalledState {
    pub explicit: Set<Seq<char>>,
    pub dependencies: Set<Seq<char>>,
    pub unneeded: Set<Seq<char>>,
}

impl View for InstalledPackages {
    type V = InstalledState;

    open spec fn view(&self) -> InstalledState {
        InstalledState {
            explicit: name_set(self.explicit@),
            dependencies: name_set(self.dependencies@),
            unneeded: name_set(self.unneeded@),
        }
    }
}

/// Packages organized by what should be done with them. Each list is sorted
/// ascending and holds no name twice.
#[derive(Debug)]
pub struct OrganizedPackages {
    pub to_install: Vec<String>,
    pub to_mark_as_explicit: Vec<String>,
    pub to_remove: Vec<String>,
    pub unneeded: Vec<String>,
}

/// What should be done, as sets of names.
pub struct Plan {
    /// Declared and not installed at all.
    pub to_install: Set<Seq<char>>,
    /// Declared, and installed only as a dependency.
    pub to_mark_as_explicit: Set<Seq<char>>,
    /// Installed explicitly and not declared. These are first marked as
    /// dependencies and then removed.
    pub to_remove: Set<Seq<char>>,
    /// Dependencies that nothing requires and that are not declared.
    pub unneeded: Set<Seq<char>>,
}

/// The plan that brings `installed` to the `declared` set.
pub open spec fn plan_for(declared: Set<Seq<char>>, installed: InstalledState) -> Plan {
    Plan {
        to_install: declared.difference(installed.explicit).difference(installed.dependencies),
        to_mark_as_explicit: declared.difference(installed.explicit).intersect(
            installed.dependencies,
        ),
        to_remove: installed.explicit.difference(declared),
        unneeded: installed.unneeded.difference(declared),
    }
}

/// `v` is the set `s` written as a sorted list.
pub open spec fn sorted_list_of(v: Seq<String>, s: Set<Seq<char>>) -> bool {
    strictly_sorted(names(v)) && name_set(v) == s
}

impl OrganizedPackages {
    /// The four lists are sorted and hold what `plan` holds.
    pub open spec fn describes(&self, plan: Plan) -> bool {
        &&& sorted_list_of(self.to_install@, plan.to_install)
        &&& sorted_list_of(self.to_mark_as_explicit@, plan.to_mark_as_explicit)
        &&& sorted_list_of(self.to_remove@, plan.to_remove)
        &&& sorted_list_of(self.unneeded@, plan.unneeded)
    }

    /// Nothing is left to do.
    pub open spec fn is_empty_plan(&self) -> bool {
        &&& self.to_install@.len() == 0
        &&& self.to_mark_as_explicit@.len() == 0
        &&& self.to_remove@.len() == 0
        &&& self.unneeded@.len() == 0
    }

    /// The packages whose install reason is set to "dependency" before they
    /// are removed: the same list as `to_remove`.
    pub fn to_mark_as_dependency(&self) -> (r: &Vec<String>)
        ensures
            r == &self.to_remove,
    {
        &self.to_remove
    }
}

/// Declared packages and the packages of declared groups, merged.
#[derive(Debug)]
pub struct MergedPackages {
    /// All declared packages, sorted ascending, each once.
    pub packages: Vec<String>,
    /// Packages that were declared by name and also belong to a declared
    /// group, each once, with the name of that group.
    pub duplicates: Vec<(String, String)>,
}

/// The names of the first `i + 1` entries are those of the first `i` and
/// the name at `i`.
pub proof fn lemma_name_set_take_next(v: Seq<String>, i: int)
    requires
        0 <= i < v.len(),
    ensures
        name_set(v.take(i + 1)) == name_set(v.take(i)).insert(v[i]@),
        v.take(v.len() as int) == v,
{
    let a = v.take(i);
    let b = v.take(i + 1);
    assert forall|x: Seq<char>| name_set(b).contains(x) <==> name_set(a).insert(v[i]@).contains(
        x,
    ) by {
        if names(b).contains(x) {
            let j = choose|j: int| 0 <= j < names(b).len() && names(b)[j] == x;
            if j < i {
                assert(names(a)[j] == x);
            }
        }
        if names(a).contains(x) {
            let j = choose|j: int| 0 <= j < names(a).len() && names(a)[j] == x;
            assert(names(b)[j] == x);
        }
        if x == v[i]@ {
            assert(names(b)[i] == x);
        }
    }
    assert(name_set(b) =~= name_set(a).insert(v[i]@));
    assert(v.take(v.len() as int) =~= v);
}

/// The names of `pkgs` that `declared` does not hold, as a sorted list.
pub fn remove_declared(pkgs: &Vec<String>, declared: &Vec<String>) -> (r: Vec<String>)
    ensures
        sorted_list_of(r@, name_set(pkgs@).difference(name_set(declared@))),
{
    let mut r: Vec<String> = Vec::new();
    let mut i: usize = 0;
    assert(name_set(r@) =~= name_set(pkgs@.take(0)).difference(name_set(declared@)));
    while i < pkgs.len()
        invariant
            i <= pkgs.len(),
            strictly_sorted(names(r@)),
            name_set(r@) == name_set(pkgs@.take(i as int)).difference(name_set(declared@)),
        decreases pkgs.len() - i,
    {
        proof {
            lemma_name_set_take_next(pkgs@, i as int);
        }
        if !contains(declared, &pkgs[i]) {
            insert_sorted(&mut r, pkgs[i].clone());
        }
        i += 1;
        assert(name_set(r@) =~= name_set(pkgs@.take(i as int)).difference(name_set(declared@)));
    }
    proof {
        if pkgs.len() > 0 {
            lemma_name_set_take_next(pkgs@, 0);
        } else {
            assert(pkgs@.take(0) =~= pkgs@);
        }
    }
    r
}

/// The names of `v` as a sorted list, each once.
pub fn sorted_names(v: &Vec<String>) -> (r: Vec<String>)
    ensures
        sorted_list_of(r@, name_set(v@)),
{
    let nothing: Vec<String> = Vec::new();
    let r = remove_declared(v, &nothing);
    assert(name_set(nothing@) =~= Set::empty());
    assert(name_set(v@).difference(Set::empty()) =~= name_set(v@));
    r
}

/// The pairs of a list whose second part, the group, is one of `groups`,
/// in their order.
pub open spec fn of_groups(listed: Seq<(String, String)>, groups: Set<Seq<char>>) -> Seq<
    (String, String),
>
    decreases listed.len(),
{
    if listed.len() == 0 {
        seq![]
    } else {
        let front = of_groups(listed.drop_last(), groups);
        if groups.contains(listed.last().1@) {
            front.push(listed.last())
        } else {
            front
        }
    }
}

/// The packages of the declared groups: of the pairs of a package and its
/// group that the package manager listed, those whose group is declared.
pub fn query_groups(groups: &Vec<String>, listed: &Vec<(String, String)>) -> (r: Vec<
    (String, String),
>)
    ensures
        r@ == of_groups(listed@, name_set(groups@)),
{
    let mut found: Vec<(String, String)> = Vec::new();
    let mut i: usize = 0;
    while i < listed.len()
        invariant
            i <= listed.len(),
            found@ == of_groups(listed@.take(i as int), name_set(groups@)),
        decreases listed.len() - i,
    {
        assert(listed@.take(i + 1).drop_last() =~= listed@.take(i as int));
        assert(listed@.take(i + 1).last() == listed@[i as int]);
        if contains(groups, &listed[i].1) {
            found.push((listed[i].0.clone(), listed[i].1.clone()));
        }
        i += 1;
    }
    assert(listed@.take(listed.len() as int) =~= listed@);
    found
}

/// Merges declared packages and the packages of declared groups into a
/// single list of packages.
///
/// `group_packages` holds pairs of a package and the declared group that it
/// belongs to. The result's `packages` are the declared packages and those
/// of the groups. A package that is declared by name and also belongs to a
/// group is reported in `duplicates`, with the group of the first pair that
/// names it.
pub fn merge_declared_packages(
    packages: &Vec<String>,
    group_packages: &Vec<(String, String)>,
) -> (r: MergedPackages)
    ensures
        sorted_list_of(r.packages@, name_set(packages@).union(key_set(group_packages@))),
        distinct_keys(r.duplicates@),
        first_values(r.duplicates@) == first_values(group_packages@).restrict(
            name_set(packages@),
        ),
{
    let mut merged = sorted_names(packages);
    let mut duplicates: Vec<(String, String)> = Vec::new();
    let ghost declared = name_set(packages@);
    let mut i: usize = 0;
    assert(name_set(merged@) =~= declared.union(first_values(group_packages@.take(0)).dom()));
    assert(first_values(duplicates@) =~= first_values(group_packages@.take(0)).restrict(
        declared,
    ));
    while i < group_packages.len()
        invariant
            i <= group_packages.len(),
            declared == name_set(packages@),
            strictly_sorted(names(merged@)),
            name_set(merged@) == declared.union(
                first_values(group_packages@.take(i as int)).dom(),
            ),
            distinct_keys(duplicates@),
            first_values(duplicates@) == first_values(group_packages@.take(i as int)).restrict(
                declared,
            ),
        decreases group_packages.len() - i,
    {
        let package = &group_packages[i].0;
        let group = &group_packages[i].1;
        let ghost seen = first_values(group_packages@.take(i as int));
        let ghost before = duplicates@;
        proof {
            lemma_first_values_next(group_packages@, i as int);
            lemma_first_values_dom(before);
        }
        insert_sorted(&mut merged, package.clone());
        if contains(packages, package) && !has_key(&duplicates, package) {
            duplicates.push((package.clone(), group.clone()));
            proof {
                assert(duplicates@.drop_last() =~= before);
                assert forall|a: int, b: int| 0 <= a < b < duplicates@.len() implies (
                #[trigger] duplicates@[a]).0@ != (#[trigger] duplicates@[b]).0@ by {
                    if b == before.len() {
                        assert(before[a].0@ != package@);
                    }
                }
            }
        }
        i += 1;
        assert(name_set(merged@) =~= declared.union(
            first_values(group_packages@.take(i as int)).dom(),
        ));
        assert(first_values(duplicates@) =~= first_values(
            group_packages@.take(i as int),
        ).restrict(declared));
    }
    proof {
        if group_packages.len() > 0 {
            lemma_first_values_next(group_packages@, 0);
        } else {
            assert(group_packages@.take(0) =~= group_packages@);
        }
        lemma_first_values_dom(group_packages@);
    }
    MergedPackages { packages: merged, duplicates }
}

/// Organizes packages by what should be done with them.
///
/// A declared package that is installed as a dependency is to be marked as
/// explicitly installed; one that is not installed at all is to be
/// installed. An explicitly installed package that is not declared is to be
/// removed. Of the unneeded dependencies those that are not declared are
/// kept as `unneeded`. Every list comes back sorted.
pub fn organize_packages(declared: &Vec<String>, installed: &InstalledPackages) -> (r:
    OrganizedPackages)
    ensures
        r.describes(plan_for(name_set(declared@), installed@)),
{
    let mut to_install: Vec<String> = Vec::new();
    let mut to_mark_as_explicit: Vec<String> = Vec::new();
    let ghost state = installed@;
    let mut i: usize = 0;
    assert(name_set(to_install@) =~= plan_for(name_set(declared@.take(0)), state).to_install);
    assert(name_set(to_mark_as_explicit@) =~= plan_for(
        name_set(declared@.take(0)),
        state,
    ).to_mark_as_explicit);
    while i < declared.len()
        invariant
            i <= declared.len(),
            state == installed@,
            strictly_sorted(names(to_install@)),
            strictly_sorted(names(to_mark_as_explicit@)),
            name_set(to_install@) == plan_for(
                name_set(declared@.take(i as int)),
                state,
            ).to_install,
            name_set(to_mark_as_explicit@) == plan_for(
                name_set(declared@.take(i as int)),
                state,
            ).to_mark_as_explicit,
        decreases declared.len() - i,
    {
        proof {
            lemma_name_set_take_next(declared@, i as int);
        }
        let package = &declared[i];
        if !contains(&installed.explicit, package) {
            if contains(&installed.dependencies, package) {
                insert_sorted(&mut to_mark_as_explicit, package.clone());
            } else {
                insert_sorted(&mut to_install, package.clone());
            }
        }
        i += 1;
        assert(name_set(to_install@) =~= plan_for(
            name_set(declared@.take(i as int)),
            state,
        ).to_install);
        assert(name_set(to_mark_as_explicit@) =~= plan_for(
            name_set(declared@.take(i as int)),
            state,
        ).to_mark_as_explicit);
    }
    proof {
        if declared.len() > 0 {
            lemma_name_set_take_next(declared@, 0);
        } else {
            assert(declared@.take(0) =~= declared@);
        }
    }
    let to_remove = remove_declared(&installed.explicit, declared);
    let unneeded = remove_declared(&installed.unneeded, declared);
    OrganizedPackages { to_install, to_mark_as_explicit, to_remove, unneeded }
}

/// The three queries that tell what is installed: the explicitly
/// installed packages, the dependencies, and the dependencies that nothing
/// requires.
pub fn installed_queries() -> (r: (QueryFilter, QueryFilter, QueryFilter))
    ensures
        r.0 == (QueryFilter {
            install_reason: Some(InstallReason::Explicit),
            unrequired: false,
            outdated: false,
        }),
        r.1 == (QueryFilter {
            install_reason: Some(InstallReason::Dependency),
            unrequired: false,
            outdated: false,
        }),
        r.2 == (QueryFilter {
            install_reason: Some(InstallReason::Dependency),
            unrequired: true,
            outdated: false,
        }),
{
    (
        QueryFilter { install_reason: Some(InstallReason::Explicit), unrequired: false, outdated: false },
        QueryFilter {
            install_reason: Some(InstallReason::Dependency),
            unrequired: false,
            outdated: false,
        },
        QueryFilter { install_reason: Some(InstallReason::Dependency), unrequired: true, outdated: false },
    )
}

/// Reads the outcome of the three queries for the packages installed
/// explicitly, as dependencies, and as dependencies that nothing requires.
///
/// The first query that does not count as answered gives the error.
pub fn query_packages(explicit: Output, dependencies: Output, unneeded: Output) -> (r: Result<
    InstalledPackages,
    PacmanError,
>)
    ensures
        r is Ok <==> query_answered(explicit) && query_answered(dependencies) && query_answered(
            unneeded,
        ),
        r is Ok ==> {
            &&& names(r.unwrap().explicit@) == query_names(explicit)
            &&& names(r.unwrap().dependencies@) == query_names(dependencies)
            &&& names(r.unwrap().unneeded@) == query_names(unneeded)
        },
        r is Err ==> r.unwrap_err() == if !query_answered(explicit) {
            query_error(explicit)
        } else if !query_answered(dependencies) {
            query_error(dependencies)
        } else {
            query_error(unneeded)
        },
{
    let explicit = match query_result(explicit) {
        Ok(found) => found,
        Err(e) => {
            return Err(e);
        },
    };
    let dependencies = match query_result(dependencies) {
        Ok(found) => found,
        Err(e) => {
            return Err(e);
        },
    };
    let unneeded = match query_result(unneeded) {
        Ok(found) => found,
        Err(e) => {
            return Err(e);
        },
    };
    Ok(InstalledPackages { explicit, dependencies, unneeded })
}

/// Of a sorted list, the first name stands before every other name of
/// the list's set.
proof fn lemma_sorted_first_is_least(v: Seq<String>, x: Seq<char>)
    requires
        strictly_sorted(names(v)),
        name_set(v).contains(x),
    ensures
        v.len() > 0,
        x == v[0]@ || crate::text::str_less(v[0]@, x),
{
    let j = choose|j: int| 0 <= j < names(v).len() && names(v)[j] == x;
    if j > 0 {
        assert(crate::text::str_less(names(v)[0], names(v)[j]));
    }
}

/// A set has one sorted list only: two sorted lists that hold the same
/// names hold them at the same places.
pub proof fn law_sorted_list_unique(a: Seq<String>, b: Seq<String>, s: Set<Seq<char>>)
    requires
        sorted_list_of(a, s),
        sorted_list_of(b, s),
    ensures
        names(a) == names(b),
    decreases a.len(),
{
    if a.len() == 0 {
        if b.len() > 0 {
            assert(names(b)[0] == b[0]@);
            assert(name_set(b).contains(b[0]@));
            let j = choose|j: int| 0 <= j < names(a).len() && names(a)[j] == b[0]@;
        }
        assert(names(a) =~= names(b));
    } else {
        assert(names(a)[0] == a[0]@);
        assert(name_set(b).contains(a[0]@));
        lemma_sorted_first_is_least(b, a[0]@);
        assert(names(b)[0] == b[0]@);
        assert(name_set(a).contains(b[0]@));
        lemma_sorted_first_is_least(a, b[0]@);
        if a[0]@ != b[0]@ {
            crate::text::lemma_str_less_asymmetric(a[0]@, b[0]@);
        }
        let ra = a.drop_first();
        let rb = b.drop_first();
        let rest = s.remove(a[0]@);
        lemma_sorted_rest(a, s);
        lemma_sorted_rest(b, s);
        law_sorted_list_unique(ra, rb, rest);
        assert forall|i: int| 0 <= i < a.len() implies names(a)[i] == names(b)[i] by {
            if i > 0 {
                assert(names(ra)[i - 1] == names(a)[i]);
                assert(names(rb)[i - 1] == names(b)[i]);
            }
        }
        assert(names(ra).len() == names(rb).len());
        assert(names(a) =~= names(b));
    }
}

/// A sorted list without its first name is the sorted list of its set
/// without that name.
proof fn lemma_sorted_rest(v: Seq<String>, s: Set<Seq<char>>)
    requires
        v.len() > 0,
        sorted_list_of(v, s),
    ensures
        sorted_list_of(v.drop_first(), s.remove(v[0]@)),
{
    let r = v.drop_first();
    assert forall|i: int, j: int| 0 <= i < j < names(r).len() implies crate::text::str_less(
        #[trigger] names(r)[i],
        #[trigger] names(r)[j],
    ) by {
        assert(names(r)[i] == names(v)[i + 1]);
        assert(names(r)[j] == names(v)[j + 1]);
    }
    assert forall|x: Seq<char>| name_set(r).contains(x) <==> s.remove(v[0]@).contains(x) by {
        if names(r).contains(x) {
            let j = choose|j: int| 0 <= j < names(r).len() && names(r)[j] == x;
            assert(names(v)[j + 1] == x);
            assert(crate::text::str_less(names(v)[0], names(v)[j + 1]));
            crate::text::lemma_str_less_asymmetric(names(v)[0], x);
        }
        if s.remove(v[0]@).contains(x) {
            let j = choose|j: int| 0 <= j < names(v).len() && names(v)[j] == x;
            assert(j > 0);
            assert(names(r)[j - 1] == x);
        }
    }
    assert(name_set(r) =~= s.remove(v[0]@));
}

/// `after` is what is installed once `plan` has been carried out in full on
/// `before`, with the removal of unneeded packages: the packages to install
/// and to mark are installed explicitly, the packages to remove are not,
/// and of the unneeded dependencies only such remain as the plan did not
/// name. Which dependencies the package manager brought in or took away is
/// left open.
pub open spec fn fully_executed(before: InstalledState, plan: Plan, after: InstalledState) -> bool {
    &&& after.explicit == before.explicit.union(plan.to_mark_as_explicit).union(
        plan.to_install,
    ).difference(plan.to_remove)
    &&& after.unneeded.subset_of(before.unneeded.difference(plan.unneeded))
}

/// A list that holds no name is empty.
pub proof fn lemma_empty_name_set(v: Seq<String>)
    requires
        name_set(v) == Set::<Seq<char>>::empty(),
    ensures
        v.len() == 0,
{
    if v.len() > 0 {
        assert(names(v)[0] == v[0]@);
        assert(name_set(v).contains(v[0]@));
    }
}

/// Organizing is idempotent: once a plan has been carried out in full,
/// organizing the same declared packages against what is then installed
/// leaves nothing to do.
pub proof fn law_second_plan_is_empty(
    declared: Set<Seq<char>>,
    before: InstalledState,
    after: InstalledState,
    second: OrganizedPackages,
)
    requires
        fully_executed(before, plan_for(declared, before), after),
        second.describes(plan_for(declared, after)),
    ensures
        plan_for(declared, after).to_install == Set::<Seq<char>>::empty(),
        plan_for(declared, after).to_mark_as_explicit == Set::<Seq<char>>::empty(),
        plan_for(declared, after).to_remove == Set::<Seq<char>>::empty(),
        plan_for(declared, after).unneeded == Set::<Seq<char>>::empty(),
        second.is_empty_plan(),
{
    let plan = plan_for(declared, after);
    assert(after.explicit =~= declared);
    assert(plan.to_install =~= Set::empty());
    assert(plan.to_mark_as_explicit =~= Set::empty());
    assert(plan.to_remove =~= Set::empty());
    assert(plan.unneeded =~= Set::empty());
    lemma_empty_name_set(second.to_install@);
    lemma_empty_name_set(second.to_mark_as_explicit@);
    lemma_empty_name_set(second.to_remove@);
    lemma_empty_name_set(second.unneeded@);
}

/// Once a plan has been carried out in full, every declared package is
/// installed explicitly, and no other package is.
pub proof fn law_declared_are_explicit(
    declared: Set<Seq<char>>,
    before: InstalledState,
    after: InstalledState,
)
    requires
        fully_executed(before, plan_for(declared, before), after),
    ensures
        forall|p: Seq<char>| declared.contains(p) ==> after.explicit.contains(p),
        after.explicit == declared,
{
    assert(after.explicit =~= declared);
}

/// A package stands in at most one of the lists to install, to mark as
/// explicitly installed and to remove, and a declared package is never
/// removed.
pub proof fn law_plan_categories_disjoint(declared: Set<Seq<char>>, installed: InstalledState)
    ensures
        plan_for(declared, installed).to_install.disjoint(
            plan_for(declared, installed).to_mark_as_explicit,
        ),
        plan_for(declared, installed).to_install.disjoint(plan_for(declared, installed).to_remove),
        plan_for(declared, installed).to_mark_as_explicit.disjoint(
            plan_for(declared, installed).to_remove,
        ),
        plan_for(declared, installed).to_remove.disjoint(declared),
        plan_for(declared, installed).unneeded.disjoint(declared),
{
}

} // verus!
