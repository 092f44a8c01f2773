//! Which packages of the requested groups come from the official repositories
//! and which from the AUR.
use vstd::prelude::*;
use crate::assoc::{has_key, lemma_lookup, Table};
use crate::config::settings::{PackageGroup, Settings};
use crate::assoc::unique_keys;
use crate::packages::graph::{
    acyclic_from, closed, deps_of, is_aur, is_path, lemma_absent_reaches_nothing,
    lemma_closed_reach, lemma_distinct_groups_bound, lemma_pkgset_single, lemma_pkgset_union,
    lemma_reach_decompose, lemma_reaches_step, lemma_single_path, pkgs_of, pkgset, present,
    reach_all, reach_set, reaches, typed_packages, Groups,
};
use crate::text::{
    extend_strings, lemma_to_set_concat, lemma_views_push,
    list_contains, sort_dedup, str_eq, str_to_string, strictly_sorted, views,
};

verus! {

/// The number of groups of the table whose names `c` lacks.
pub open spec fn count_unchecked(g: Groups, c: Seq<Seq<char>>) -> nat
    decreases g.len(),
{
    if g.len() == 0 {
        0
    } else {
        count_unchecked(g.drop_last(), c) + (if c.contains(g.last().0) {
            0nat
        } else {
            1nat
        })
    }
}

/// Checking more names leaves fewer unchecked groups, and strictly fewer when a
/// group's name is newly checked.
proof fn lemma_count_unchecked(g: Groups, c: Seq<Seq<char>>, c2: Seq<Seq<char>>, x: Seq<char>)
    requires
        forall|y: Seq<char>| c.contains(y) ==> c2.contains(y),
    ensures
        count_unchecked(g, c2) <= count_unchecked(g, c),
        has_key(g, x) && !c.contains(x) && c2.contains(x) ==> count_unchecked(g, c2)
            < count_unchecked(g, c),
    decreases g.len(),
{
    if g.len() > 0 {
        let d = g.drop_last();
        lemma_count_unchecked(d, c, c2, x);
        if has_key(g, x) && g.last().0 != x {
            let i = choose|i: int| 0 <= i < g.len() && g[i].0 == x;
            assert(d[i].0 == x);
        }
    }
}

/// Checking more names leaves fewer unchecked groups, and strictly fewer when a
/// group's name is newly checked.
pub proof fn lemma_count_unchecked_pub(g: Groups, c: Seq<Seq<char>>, c2: Seq<Seq<char>>, x: Seq<char>)
    requires
        forall|y: Seq<char>| c.contains(y) ==> c2.contains(y),
    ensures
        count_unchecked(g, c2) <= count_unchecked(g, c),
        has_key(g, x) && !c.contains(x) && c2.contains(x) ==> count_unchecked(g, c2)
            < count_unchecked(g, c),
{
    lemma_count_unchecked(g, c, c2, x);
}

/// Every checked group beyond `c0` that exists is not `aur` and has all its
/// dependencies checked.
pub open spec fn closed_no_aur(g: Groups, c0: Seq<Seq<char>>, c1: Seq<Seq<char>>) -> bool {
    forall|n: Seq<char>|
        #![trigger c1.contains(n), present(g, n)]
        c1.contains(n) && !c0.contains(n) && present(g, n) ==> n != "aur"@ && forall|d: Seq<char>|
            #[trigger] deps_of(g, n).contains(d) ==> c1.contains(d)
}

/// Whether `group_name` is an AUR group, skipping the groups already in
/// `checked` and adding the groups it visits.
fn is_aur_group(group_name: &str, groups: &Table<PackageGroup>, checked: &mut Vec<String>) -> (r: bool)
    ensures
        views(old(checked)@).contains(group_name@) ==> !r && final(checked)@ == old(checked)@,
        forall|y: Seq<char>| views(old(checked)@).contains(y) ==> views(final(checked)@).contains(y),
        views(final(checked)@).contains(group_name@),
        r ==> is_aur(groups@, group_name@),
        !r ==> closed_no_aur(groups@, views(old(checked)@), views(final(checked)@)),
    decreases count_unchecked(groups@, views(old(checked)@)),
{
    if list_contains(checked, group_name) {
        return false;
    }
    let ghost g = groups@;
    let ghost c0 = views(checked@);
    assert(c0 == views(old(checked)@));
    assert(!c0.contains(group_name@));
    let ghost old_c = checked@;
    let name = str_to_string(group_name);
    checked.push(name);
    proof {
        lemma_views_push(old_c, name);
        assert(views(checked@)[c0.len() as int] == group_name@);
        assert forall|y: Seq<char>| c0.contains(y) implies views(checked@).contains(y) by {
            let i = choose|i: int| 0 <= i < c0.len() && c0[i] == y;
            assert(views(checked@)[i] == y);
        }
    }
    match groups.get(group_name) {
        None => {
            return false;
        },
        Some(group) => {
            proof {
                lemma_lookup(g, group_name@);
                lemma_count_unchecked(g, c0, views(checked@), group_name@);
            }
            if str_eq(group_name, "aur") {
                proof {
                    lemma_single_path(g, group_name@);
                }
                return true;
            }
            let ghost deps = deps_of(g, group_name@);
            assert(deps == views(group.dependencies@));
            let mut k: usize = 0;
            while k < group.dependencies.len()
                invariant
                    g == groups@,
                    c0 == views(old(checked)@),
                    deps == views(group.dependencies@),
                    deps == deps_of(g, group_name@),
                    present(g, group_name@),
                    group_name@ != "aur"@,
                    k <= deps.len(),
                    forall|y: Seq<char>| c0.contains(y) ==> views(checked@).contains(y),
                    views(checked@).contains(group_name@),
                    !c0.contains(group_name@),
                    count_unchecked(g, views(checked@)) < count_unchecked(g, c0),
                    forall|j: int| 0 <= j < k ==> views(checked@).contains(#[trigger] deps[j]),
                    forall|n: Seq<char>|
                        #![trigger views(checked@).contains(n), present(g, n)]
                        views(checked@).contains(n) && !c0.contains(n) && n != group_name@
                            && present(g, n) ==> n != "aur"@ && forall|d: Seq<char>|
                            #[trigger] deps_of(g, n).contains(d) ==> views(checked@).contains(d),
                decreases deps.len() - k,
            {
                let ghost ck = views(checked@);
                let dep = &group.dependencies[k];
                let found = is_aur_group(dep.as_str(), groups, checked);
                if found {
                    proof {
                        assert(deps.contains(deps[k as int]));
                        lemma_reaches_step(g, group_name@, dep@, "aur"@);
                    }
                    return true;
                }
                proof {
                    lemma_count_unchecked(g, ck, views(checked@), group_name@);
                }
                k = k + 1;
            }
            proof {
                assert forall|d: Seq<char>| #[trigger] deps_of(g, group_name@).contains(d) implies views(
                    checked@,
                ).contains(d) by {
                    let j = choose|j: int| 0 <= j < deps.len() && deps[j] == d;
                    assert(views(checked@).contains(deps[j]));
                }
            }
            return false;
        },
    }
}

/// Whether the group `name` is an AUR group: `aur` is the group itself or among
/// its direct or indirect dependencies.
fn group_is_aur(name: &str, groups: &Table<PackageGroup>) -> (r: bool)
    ensures
        r == is_aur(groups@, name@),
{
    let mut checked: Vec<String> = Vec::new();
    assert(views(checked@) =~= Seq::<Seq<char>>::empty());
    let r = is_aur_group(name, groups, &mut checked);
    if !r {
        proof {
            let c = views(checked@);
            if is_aur(groups@, name@) {
                let p = choose|p: Seq<Seq<char>>|
                    #[trigger] crate::packages::graph::is_path(groups@, p) && p[0] == name@ && p.last()
                        == "aur"@;
                lemma_no_aur_on_path(groups@, c, p, p.len() - 1);
            }
        }
    }
    r
}

proof fn lemma_no_aur_on_path(g: Groups, c: Seq<Seq<char>>, p: Seq<Seq<char>>, i: int)
    requires
        closed_no_aur(g, Seq::empty(), c),
        crate::packages::graph::is_path(g, p),
        c.contains(p[0]),
        0 <= i < p.len(),
    ensures
        c.contains(p[i]),
        p[i] != "aur"@,
    decreases i,
{
    assert(present(g, p[i]));
    if i > 0 {
        lemma_no_aur_on_path(g, c, p, i - 1);
        assert(deps_of(g, p[i - 1]).contains(p[i]));
    }
    assert(present(g, p[i]));
    assert(c.contains(p[i]));
}

/// The texts of a list, as a set.
pub open spec fn nset(v: Seq<String>) -> Set<Seq<char>> {
    views(v).to_set()
}

/// `stk` followed by `name` is a chain of distinct groups that starts at a root,
/// each group of `stk` existing and depending on the next one.
pub open spec fn chain_ok(g: Groups, roots: Seq<Seq<char>>, stk: Seq<Seq<char>>, name: Seq<char>) -> bool {
    &&& roots.contains(stk.push(name)[0])
    &&& stk.no_duplicates()
    &&& !stk.contains(name)
    &&& forall|i: int| 0 <= i < stk.len() ==> present(g, #[trigger] stk[i])
    &&& forall|i: int| 0 <= i < stk.len() ==> deps_of(g, #[trigger] stk[i]).contains(stk.push(name)[i + 1])
}

/// Collects, depth first, the packages of `group_name` and of the groups it
/// depends on whose AUR-ness is `want_aur`, skipping processed groups. `stack`
/// holds the groups being collected; meeting one of them again means a
/// dependency cycle, which stops the walk with `false`.
fn collect_packages_by_type(
    group_name: &str,
    groups: &Table<PackageGroup>,
    result: &mut Vec<String>,
    processed: &mut Vec<String>,
    want_aur: bool,
    stack: &mut Vec<String>,
    Ghost(roots): Ghost<Seq<Seq<char>>>,
) -> (ok: bool)
    requires
        unique_keys(groups@),
        chain_ok(groups@, roots, views(old(stack)@), group_name@),
        closed(groups@, nset(old(processed)@)),
        nset(old(result)@) == pkgset(groups@, nset(old(processed)@), want_aur),
    ensures
        final(stack)@ == old(stack)@,
        ok ==> nset(final(processed)@) == nset(old(processed)@).union(
            reach_set(groups@, group_name@),
        ),
        ok ==> closed(groups@, nset(final(processed)@)),
        ok ==> nset(final(result)@) == pkgset(groups@, nset(final(processed)@), want_aur),
        !ok ==> !acyclic_from(groups@, roots),
    decreases groups@.len() + 1 - old(stack)@.len(),
{
    let ghost g = groups@;
    let ghost p0 = nset(processed@);
    let ghost stk = views(stack@);
    if list_contains(processed, group_name) {
        proof {
            assert forall|x: Seq<char>| reach_set(g, group_name@).contains(x) implies p0.contains(x) by {
                lemma_closed_reach(g, p0, group_name@, x);
            }
            assert(p0.union(reach_set(g, group_name@)) =~= p0);
        }
        return true;
    }
    match groups.get(group_name) {
        None => {
            proof {
                assert forall|x: Seq<char>| !reach_set(g, group_name@).contains(x) by {
                    lemma_absent_reaches_nothing(g, group_name@, x);
                }
                assert(p0.union(reach_set(g, group_name@)) =~= p0);
            }
            return true;
        },
        Some(group) => {
            let is_aur_here = group_is_aur(group_name, groups);
            let ghost deps = deps_of(g, group_name@);
            assert(deps == views(group.dependencies@));
            let ghost stk2 = stk.push(group_name@);
            let ghost old_stack = stack@;
            let entry = str_to_string(group_name);
            stack.push(entry);
            proof {
                lemma_views_push(old_stack, entry);
                assert(views(stack@) == stk2);
                assert(stk2.no_duplicates()) by {
                    assert forall|i: int, j: int| 0 <= i < j < stk2.len() implies stk2[i] != stk2[j] by {
                        if j == stk.len() {
                            assert(stk.contains(stk[i]));
                        }
                    }
                }
                assert forall|i: int| 0 <= i < stk2.len() implies present(g, #[trigger] stk2[i]) by {
                    if i < stk.len() {
                        assert(stk2[i] == stk[i]);
                    }
                }
                lemma_distinct_groups_bound(g, stk2);
            }
            let mut k: usize = 0;
            assert(reach_all(g, deps.subrange(0, 0)) =~= Set::empty());
            assert(p0.union(Set::empty()) =~= p0);
            while k < group.dependencies.len()
                invariant
                    g == groups@,
                    unique_keys(g),
                    roots == roots,
                    chain_ok(g, roots, stk, group_name@),
                    present(g, group_name@),
                    deps == deps_of(g, group_name@),
                    deps == views(group.dependencies@),
                    stk2 == stk.push(group_name@),
                    views(stack@) == stk2,
                    stack@ == old_stack.push(entry),
                    stk == views(old(stack)@),
                    old_stack == old(stack)@,
                    stk2.no_duplicates(),
                    stk2.len() <= g.len(),
                    forall|i: int| 0 <= i < stk2.len() ==> present(g, #[trigger] stk2[i]),
                    k <= deps.len(),
                    p0 == nset(old(processed)@),
                    !p0.contains(group_name@),
                    closed(g, nset(processed@)),
                    nset(result@) == pkgset(g, nset(processed@), want_aur),
                    nset(processed@) == p0.union(reach_all(g, deps.subrange(0, k as int))),
                decreases deps.len() - k,
            {
                let dep = &group.dependencies[k];
                assert(deps[k as int] == dep@);
                assert(deps.contains(dep@));
                if list_contains(stack, dep.as_str()) {
                    proof {
                        let q = stk2.push(dep@);
                        let i = choose|i: int| 0 <= i < stk2.len() && stk2[i] == dep@;
                        assert(q[i] == q[stk2.len() as int]);
                        assert forall|j: int| 0 <= j < q.len() implies present(g, #[trigger] q[j]) by {
                            if j < stk2.len() {
                                assert(q[j] == stk2[j]);
                            } else {
                                assert(q[j] == stk2[i]);
                            }
                        }
                        assert forall|j: int| 0 <= j < q.len() - 1 implies deps_of(
                            g,
                            #[trigger] q[j],
                        ).contains(q[j + 1]) by {
                            assert(q[j] == stk2[j]);
                            if j < stk.len() {
                                assert(stk2[j] == stk[j]);
                                assert(stk.push(group_name@)[j + 1] == q[j + 1]);
                            }
                        }
                        assert(is_path(g, q));
                        assert(q[0] == stk.push(group_name@)[0]);
                        assert(!q.no_duplicates());
                    }
                    stack.pop();
                    return false;
                }
                let ghost pk = nset(processed@);
                proof {
                    assert(chain_ok(g, roots, stk2, dep@)) by {
                        assert(stk2.push(dep@)[0] == stk.push(group_name@)[0]);
                        assert forall|i: int| 0 <= i < stk2.len() implies deps_of(
                            g,
                            #[trigger] stk2[i],
                        ).contains(stk2.push(dep@)[i + 1]) by {
                            if i < stk.len() {
                                assert(stk2[i] == stk[i]);
                                assert(stk2.push(dep@)[i + 1] == stk.push(group_name@)[i + 1]);
                            }
                        }
                    }
                }
                let ok = collect_packages_by_type(
                    dep.as_str(),
                    groups,
                    result,
                    processed,
                    want_aur,
                    stack,
                    Ghost(roots),
                );
                if !ok {
                    stack.pop();
                    return false;
                }
                proof {
                    assert(nset(processed@) =~= p0.union(reach_all(g, deps.subrange(0, k + 1)))) by {
                        assert forall|x: Seq<char>| reach_all(g, deps.subrange(0, k + 1)).contains(x) <==> (
                        reach_all(g, deps.subrange(0, k as int)).contains(x) || reach_set(g, dep@).contains(
                            x,
                        )) by {
                            if reach_all(g, deps.subrange(0, k + 1)).contains(x) {
                                let j = choose|j: int| 0 <= j < k + 1 && #[trigger] reaches(
                                    g,
                                    deps.subrange(0, k + 1)[j],
                                    x,
                                );
                                if j < k {
                                    assert(deps.subrange(0, k as int)[j] == deps.subrange(0, k + 1)[j]);
                                }
                            }
                            if reach_all(g, deps.subrange(0, k as int)).contains(x) {
                                let j = choose|j: int| 0 <= j < k && #[trigger] reaches(
                                    g,
                                    deps.subrange(0, k as int)[j],
                                    x,
                                );
                                assert(deps.subrange(0, k as int)[j] == deps.subrange(0, k + 1)[j]);
                            }
                            if reach_set(g, dep@).contains(x) {
                                assert(deps.subrange(0, k + 1)[k as int] == dep@);
                            }
                        }
                    }
                }
                k = k + 1;
            }
            stack.pop();
            proof {
                assert(stack@ =~= old_stack);
                assert(deps.subrange(0, deps.len() as int) =~= deps);
            }
            let ghost pa = nset(processed@);
            let ghost ra = result@;
            if is_aur_here == want_aur {
                extend_strings(result, &group.packages);
            }
            let ghost pr = processed@;
            let name = str_to_string(group_name);
            processed.push(name);
            proof {
                lemma_views_push(pr, name);
                views(pr).lemma_push_to_set_commute(name@);
                assert(nset(processed@) == pa.insert(group_name@));
                // The processed set is the old one and what the group reaches.
                assert forall|x: Seq<char>| nset(processed@).contains(x) <==> p0.union(
                    reach_set(g, group_name@),
                ).contains(x) by {
                    lemma_reach_decompose(g, group_name@, x);
                    if reach_all(g, deps).contains(x) {
                        let j = choose|j: int| 0 <= j < deps.len() && #[trigger] reaches(g, deps[j], x);
                        assert(reaches(g, deps_of(g, group_name@)[j], x));
                    }
                    if reaches(g, group_name@, x) && x != group_name@ {
                        let j = choose|j: int|
                            0 <= j < deps_of(g, group_name@).len() && #[trigger] reaches(
                                g,
                                deps_of(g, group_name@)[j],
                                x,
                            );
                        assert(reach_all(g, deps).contains(x));
                    }
                    if x == group_name@ {
                        lemma_single_path(g, group_name@);
                    }
                }
                assert(nset(processed@) =~= p0.union(reach_set(g, group_name@)));
                // It is closed.
                assert forall|n: Seq<char>, d: Seq<char>|
                    nset(processed@).contains(n) && #[trigger] deps_of(g, n).contains(d) && present(
                        g,
                        d,
                    ) implies nset(processed@).contains(d) by {
                    if n == group_name@ {
                        let j = choose|j: int| 0 <= j < deps.len() && deps[j] == d;
                        lemma_single_path(g, d);
                        assert(reaches(g, deps[j], d));
                        assert(reach_all(g, deps).contains(d));
                    } else {
                        assert(pa.contains(n));
                    }
                }
                // Its packages are the result.
                lemma_pkgset_union(g, pa, set![group_name@], want_aur);
                assert(pa.insert(group_name@) =~= pa.union(set![group_name@]));
                lemma_pkgset_single(g, group_name@, want_aur);
                assert(pkgs_of(g, group_name@) == views(group.packages@));
                if is_aur_here == want_aur {
                    lemma_to_set_concat(views(ra), views(group.packages@));
                } else {
                    assert(pkgset(g, pa, want_aur).union(Set::empty()) =~= pkgset(g, pa, want_aur));
                }
            }
            return true;
        },
    }
}

/// The packages of the requested groups and of all groups they depend on,
/// directly or not, keeping only the groups whose AUR-ness is `want_aur`; sorted
/// and without repeats. `None` when a dependency cycle is met.
pub fn packages_by_type(s: &Settings, requested_groups: &Vec<String>, want_aur: bool) -> (r: Option<
    Vec<String>,
>)
    ensures
        match r {
            Some(v) => strictly_sorted(views(v@)) && views(v@).to_set() == typed_packages(
                s.groups@,
                views(requested_groups@),
                want_aur,
            ),
            None => !acyclic_from(s.groups@, views(requested_groups@)),
        },
{
    let groups = &s.groups;
    groups.keys_unique_proof();
    let ghost g = groups@;
    let ghost roots = views(requested_groups@);
    let mut result: Vec<String> = Vec::new();
    let mut processed: Vec<String> = Vec::new();
    let mut stack: Vec<String> = Vec::new();
    proof {
        assert(views(processed@) =~= Seq::<Seq<char>>::empty());
        assert(views(result@) =~= Seq::<Seq<char>>::empty());
        assert(nset(processed@) =~= Set::empty());
        assert(pkgset(g, Set::empty(), want_aur) =~= Set::empty());
        assert(reach_all(g, roots.subrange(0, 0)) =~= Set::empty());
    }
    let mut i: usize = 0;
    while i < requested_groups.len()
        invariant
            g == groups@,
            g == s.groups@,
            unique_keys(g),
            roots == views(requested_groups@),
            i <= roots.len(),
            views(stack@) == Seq::<Seq<char>>::empty(),
            closed(g, nset(processed@)),
            nset(result@) == pkgset(g, nset(processed@), want_aur),
            nset(processed@) == reach_all(g, roots.subrange(0, i as int)),
        decreases roots.len() - i,
    {
        let name = &requested_groups[i];
        proof {
            assert(roots[i as int] == name@);
            assert(views(stack@).push(name@)[0] == name@);
            assert(roots.contains(name@));
        }
        let ok = collect_packages_by_type(
            name.as_str(),
            groups,
            &mut result,
            &mut processed,
            want_aur,
            &mut stack,
            Ghost(roots),
        );
        if !ok {
            return None;
        }
        proof {
            assert forall|x: Seq<char>| reach_all(g, roots.subrange(0, i + 1)).contains(x) <==> (
            reach_all(g, roots.subrange(0, i as int)).contains(x) || reach_set(g, name@).contains(x)) by {
                if reach_all(g, roots.subrange(0, i + 1)).contains(x) {
                    let j = choose|j: int| 0 <= j < i + 1 && #[trigger] reaches(
                        g,
                        roots.subrange(0, i + 1)[j],
                        x,
                    );
                    if j < i {
                        assert(roots.subrange(0, i as int)[j] == roots.subrange(0, i + 1)[j]);
                    }
                }
                if reach_all(g, roots.subrange(0, i as int)).contains(x) {
                    let j = choose|j: int| 0 <= j < i && #[trigger] reaches(
                        g,
                        roots.subrange(0, i as int)[j],
                        x,
                    );
                    assert(roots.subrange(0, i as int)[j] == roots.subrange(0, i + 1)[j]);
                }
                if reach_set(g, name@).contains(x) {
                    assert(roots.subrange(0, i + 1)[i as int] == name@);
                }
            }
            assert(nset(processed@) =~= reach_all(g, roots.subrange(0, i + 1)));
        }
        i = i + 1;
    }
    proof {
        assert(roots.subrange(0, roots.len() as int) =~= roots);
        assert(pkgset(g, reach_all(g, roots), want_aur) =~= typed_packages(g, roots, want_aur)) by {
            assert forall|x: Seq<char>| pkgset(g, reach_all(g, roots), want_aur).contains(x) <==> typed_packages(
                g,
                roots,
                want_aur,
            ).contains(x) by {
                if typed_packages(g, roots, want_aur).contains(x) {
                    let n = choose|n: Seq<char>|
                        crate::packages::graph::reachable_from(g, roots, n) && is_aur(g, n) == want_aur
                            && #[trigger] pkgs_of(g, n).contains(x);
                    let j = choose|j: int| 0 <= j < roots.len() && #[trigger] reaches(g, roots[j], n);
                    assert(reach_all(g, roots).contains(n));
                }
                if pkgset(g, reach_all(g, roots), want_aur).contains(x) {
                    let n = choose|n: Seq<char>|
                        reach_all(g, roots).contains(n) && is_aur(g, n) == want_aur
                            && #[trigger] pkgs_of(g, n).contains(x);
                    let j = choose|j: int| 0 <= j < roots.len() && #[trigger] reaches(g, roots[j], n);
                    assert(crate::packages::graph::reachable_from(g, roots, n));
                }
            }
        }
    }
    let sorted = sort_dedup(result);
    Some(sorted)
}

/// The packages from the official repositories that the requested groups need:
/// those of the requested groups and of the groups they depend on, directly or
/// not, that are not AUR groups; sorted and without repeats.
pub fn get_pacman_packages(s: &Settings, requested_groups: &Vec<String>) -> (r: Vec<String>)
    requires
        acyclic_from(s.groups@, views(requested_groups@)),
    ensures
        strictly_sorted(views(r@)),
        views(r@).to_set() == typed_packages(s.groups@, views(requested_groups@), false),
{
    match packages_by_type(s, requested_groups, false) {
        Some(v) => v,
        None => Vec::new(),
    }
}

/// The AUR packages that the requested groups need: those of the requested
/// groups and of the groups they depend on, directly or not, that are AUR
/// groups; sorted and without repeats.
pub fn get_aur_packages(s: &Settings, requested_groups: &Vec<String>) -> (r: Vec<String>)
    requires
        acyclic_from(s.groups@, views(requested_groups@)),
    ensures
        strictly_sorted(views(r@)),
        views(r@).to_set() == typed_packages(s.groups@, views(requested_groups@), true),
{
    match packages_by_type(s, requested_groups, true) {
        Some(v) => v,
        None => Vec::new(),
    }
}

/// The packages of the groups reached from `roots`, of either kind.
pub open spec fn reachable_packages(g: Groups, roots: Seq<Seq<char>>) -> Set<Seq<char>> {
    Set::new(
        |x: Seq<char>|
            exists|n: Seq<char>|
                crate::packages::graph::reachable_from(g, roots, n) && #[trigger] pkgs_of(g, n).contains(x),
    )
}

/// Every package that the requested groups need is installed by one of the
/// two package managers: the official packages and the AUR packages together
/// are all packages of the groups reached.
pub proof fn law_pacman_and_aur_cover_all(g: Groups, roots: Seq<Seq<char>>)
    ensures
        typed_packages(g, roots, false).union(typed_packages(g, roots, true)) == reachable_packages(
            g,
            roots,
        ),
{
    assert forall|x: Seq<char>| #[trigger] reachable_packages(g, roots).contains(x) implies typed_packages(
        g,
        roots,
        false,
    ).union(typed_packages(g, roots, true)).contains(x) by {
        let n = choose|n: Seq<char>|
            crate::packages::graph::reachable_from(g, roots, n) && #[trigger] pkgs_of(g, n).contains(x);
        if is_aur(g, n) {
            assert(typed_packages(g, roots, true).contains(x));
        } else {
            assert(typed_packages(g, roots, false).contains(x));
        }
    }
    assert(typed_packages(g, roots, false).union(typed_packages(g, roots, true)) =~= reachable_packages(
        g,
        roots,
    ));
}

/// A group is never both: the official and the AUR packages of one group go
/// to one package manager only.
pub proof fn law_group_kind_is_exclusive(g: Groups, roots: Seq<Seq<char>>, n: Seq<char>, x: Seq<char>)
    requires
        crate::packages::graph::reachable_from(g, roots, n),
        pkgs_of(g, n).contains(x),
    ensures
        is_aur(g, n) ==> typed_packages(g, roots, true).contains(x),
        !is_aur(g, n) ==> typed_packages(g, roots, false).contains(x),
{
}

/// What `install_all` installs: the official packages first, then the AUR ones.
pub struct InstallPlan {
    pub pacman: Vec<String>,
    pub aur: Vec<String>,
}

/// The packages to install for the requested groups, official ones first and
/// AUR ones second, each list sorted and without repeats; `None` when a
/// dependency cycle is met.
pub fn install_all(s: &Settings, requested_groups: &Vec<String>) -> (r: Option<InstallPlan>)
    ensures
        match r {
            Some(p) => {
                &&& strictly_sorted(views(p.pacman@))
                &&& views(p.pacman@).to_set() == typed_packages(s.groups@, views(requested_groups@), false)
                &&& strictly_sorted(views(p.aur@))
                &&& views(p.aur@).to_set() == typed_packages(s.groups@, views(requested_groups@), true)
            },
            None => !acyclic_from(s.groups@, views(requested_groups@)),
        },
{
    let pacman = match packages_by_type(s, requested_groups, false) {
        Some(v) => v,
        None => return None,
    };
    let aur = match packages_by_type(s, requested_groups, true) {
        Some(v) => v,
        None => return None,
    };
    Some(InstallPlan { pacman, aur })
}

/// The message after some packages failed to install.
pub fn install_failure_message(failed: &Vec<String>) -> (r: String)
    ensures
        r@ == "Failed to install: "@ + crate::cli::commands::debug_list(views(failed@)),
{
    let l = crate::cli::commands::debug_strings(failed);
    crate::text::concat("Failed to install: ", l.as_str())
}

/// The outcome of installing a list: success when nothing failed, else the
/// failure message.
pub fn install_outcome(failed: &Vec<String>) -> (r: Result<(), String>)
    ensures
        failed@.len() == 0 ==> r is Ok,
        failed@.len() > 0 ==> (r matches Err(m) && m@ == "Failed to install: "@
            + crate::cli::commands::debug_list(views(failed@))),
{
    if failed.len() == 0 {
        Ok(())
    } else {
        Err(install_failure_message(failed))
    }
}

/// The progress line while installing package number `i` (from 0) of `n`:
/// `VERB NAME (i+1/n)`.
pub fn progress_message(verb: &str, pkg: &str, suffix: &str, i: usize, n: usize) -> (r: String)
    requires
        i < n,
    ensures
        r@ == verb@ + pkg@ + suffix@ + " ("@ + crate::text::decimal((i + 1) as nat) + "/"@
            + crate::text::decimal(n as nat) + ")"@,
{
    let a = crate::text::concat(verb, pkg);
    let b = crate::text::concat(a.as_str(), suffix);
    let c = crate::text::concat(b.as_str(), " (");
    let k = crate::text::usize_to_string(i + 1);
    let d = crate::text::concat(c.as_str(), k.as_str());
    let e = crate::text::concat(d.as_str(), "/");
    let m = crate::text::usize_to_string(n);
    let f = crate::text::concat(e.as_str(), m.as_str());
    crate::text::concat(f.as_str(), ")")
}

/// The arguments of `sudo` that install one official package: `--needed`
/// skips a package that is up to date, unless a reinstall is forced.
pub fn pacman_install_args(pkg: &str, force: bool) -> (r: Vec<String>)
    ensures
        !force ==> views(r@) == seq!["pacman"@, "-S"@, "--noconfirm"@, "--needed"@, pkg@],
        force ==> views(r@) == seq!["pacman"@, "-S"@, "--noconfirm"@, pkg@],
{
    let mut v: Vec<String> = Vec::new();
    let ghost b0 = v@;
    let a = str_to_string("pacman");
    v.push(a);
    proof {
        lemma_views_push(b0, a);
    }
    let ghost b1 = v@;
    let b = str_to_string("-S");
    v.push(b);
    proof {
        lemma_views_push(b1, b);
    }
    let ghost b2 = v@;
    let c = str_to_string("--noconfirm");
    v.push(c);
    proof {
        lemma_views_push(b2, c);
    }
    if !force {
        let ghost b3 = v@;
        let d = str_to_string("--needed");
        v.push(d);
        proof {
            lemma_views_push(b3, d);
        }
    }
    let ghost b4 = v@;
    let e = str_to_string(pkg);
    v.push(e);
    proof {
        lemma_views_push(b4, e);
        assert(views(b0) =~= Seq::<Seq<char>>::empty());
    }
    if force {
        assert(views(v@) =~= seq!["pacman"@, "-S"@, "--noconfirm"@, pkg@]);
    } else {
        assert(views(v@) =~= seq!["pacman"@, "-S"@, "--noconfirm"@, "--needed"@, pkg@]);
    }
    v
}

} // verus!
