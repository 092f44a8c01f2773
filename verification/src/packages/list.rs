//! The package groups as a list, the order in which they can be installed, and
//! the packages that a group needs.
use vstd::prelude::*;
use crate::assoc::{lemma_lookup, lookup, unique_keys, Duplicate, Table};
use crate::config::settings::Settings;
use crate::packages::graph::{
    closed, deps_of, is_path, lemma_closed_reach, lemma_reaches_step, lemma_single_path, pkgs_of,
    present, reach_set, reaches, Groups,
};
use crate::packages::install::{count_unchecked, nset};
use crate::text::{
    copy_string, copy_strings, extend_strings, is_sorted_dedup_of, lemma_sorted_unique,
    lemma_to_set_concat, lemma_views_push, list_contains, sort_dedup, strictly_sorted, views,
};

verus! {

/// A package group with its name.
pub struct PackageGroup {
    pub name: String,
    pub packages: Vec<String>,
    pub dependencies: Vec<String>,
}

/// The mathematical value of a named [`PackageGroup`].
pub struct NamedGroupView {
    pub name: Seq<char>,
    pub packages: Seq<Seq<char>>,
    pub dependencies: Seq<Seq<char>>,
}

impl View for PackageGroup {
    type V = NamedGroupView;

    open spec fn view(&self) -> NamedGroupView {
        NamedGroupView {
            name: self.name@,
            packages: views(self.packages@),
            dependencies: views(self.dependencies@),
        }
    }
}

impl Duplicate for PackageGroup {
    fn duplicate(&self) -> (r: PackageGroup) {
        PackageGroup {
            name: copy_string(&self.name),
            packages: copy_strings(&self.packages),
            dependencies: copy_strings(&self.dependencies),
        }
    }
}

/// The configured groups, each carrying its own name.
pub open spec fn named_groups(g: Groups) -> Seq<(Seq<char>, NamedGroupView)> {
    Seq::new(
        g.len(),
        |i: int|
            (
                g[i].0,
                NamedGroupView {
                    name: g[i].0,
                    packages: g[i].1.packages,
                    dependencies: g[i].1.dependencies,
                },
            ),
    )
}

/// All configured groups, by name, each carrying its name.
pub fn get_all_groups(s: &Settings) -> (r: Table<PackageGroup>)
    ensures
        r@ == named_groups(s.groups@),
{
    let g = &s.groups;
    g.keys_unique_proof();
    let mut r: Table<PackageGroup> = Table::new();
    let mut i: usize = 0;
    while i < g.len()
        invariant
            i <= g@.len(),
            unique_keys(g@),
            g@ == s.groups@,
            r@ == named_groups(g@).subrange(0, i as int),
        decreases g@.len() - i,
    {
        let name = g.key_at(i);
        let group = g.value_at(i);
        let ghost before = r@;
        assert(!crate::assoc::has_key(before, name@)) by {
            if crate::assoc::has_key(before, name@) {
                let j = choose|j: int| 0 <= j < before.len() && before[j].0 == name@;
                assert(g@[j].0 == g@[i as int].0);
            }
        }
        r.insert(
            copy_string(name),
            PackageGroup {
                name: copy_string(name),
                packages: copy_strings(&group.packages),
                dependencies: copy_strings(&group.dependencies),
            },
        );
        assert(r@ =~= named_groups(g@).subrange(0, i + 1));
        i = i + 1;
    }
    assert(named_groups(g@).subrange(0, g@.len() as int) =~= named_groups(g@));
    r
}

// ---------------------------------------------------------------------------
// Installation order
// ---------------------------------------------------------------------------

/// The one list that is `s` sorted without repeats.
pub open spec fn sort_dedup_spec(s: Seq<Seq<char>>) -> Seq<Seq<char>> {
    choose|r: Seq<Seq<char>>| is_sorted_dedup_of(r, s)
}

/// A sorted list without repeats of the elements of `s` is `sort_dedup_spec(s)`.
pub proof fn lemma_sort_dedup_spec(r: Seq<Seq<char>>, s: Seq<Seq<char>>)
    requires
        is_sorted_dedup_of(r, s),
    ensures
        sort_dedup_spec(s) == r,
{
    let c = sort_dedup_spec(s);
    lemma_sorted_unique(c, r);
}

/// One round over the remaining groups, in order: a group whose dependencies are
/// all installed (counting those installed earlier in this round) is installed
/// and gives its packages; another existing group waits; a missing group is
/// dropped. The result is the packages, the waiting groups, and the installed set.
pub open spec fn round(g: Groups, remaining: Seq<Seq<char>>, installed: Set<Seq<char>>) -> (
    Seq<Seq<char>>,
    Seq<Seq<char>>,
    Set<Seq<char>>,
)
    decreases remaining.len(),
{
    if remaining.len() == 0 {
        (Seq::empty(), Seq::empty(), installed)
    } else {
        let (cur, still, inst) = round(g, remaining.drop_last(), installed);
        let n = remaining.last();
        match lookup(g, n) {
            Some(v) => if forall|j: int| 0 <= j < v.dependencies.len() ==> inst.contains(
                #[trigger] v.dependencies[j],
            ) {
                (cur + v.packages, still, inst.insert(n))
            } else {
                (cur, still.push(n), inst)
            },
            None => (cur, still, inst),
        }
    }
}

/// A group is installed in a round only once all its dependencies are: going
/// through the remaining groups in order, the group at `i` gives packages
/// only when every one of its dependencies was installed before it (in an
/// earlier round, or earlier in this one), and a group with a dependency not
/// yet installed gives nothing and stays waiting.
pub proof fn law_round_waits_for_dependencies(
    g: Groups,
    remaining: Seq<Seq<char>>,
    installed: Set<Seq<char>>,
    i: int,
)
    requires
        0 <= i < remaining.len(),
    ensures
        ({
            let before = round(g, remaining.take(i), installed);
            let after = round(g, remaining.take(i + 1), installed);
            let n = remaining[i];
            &&& after.0 != before.0 ==> forall|j: int|
                0 <= j < deps_of(g, n).len() ==> before.2.contains(#[trigger] deps_of(g, n)[j])
            &&& (exists|j: int|
                0 <= j < deps_of(g, n).len() && !before.2.contains(#[trigger] deps_of(g, n)[j]))
                ==> after.0 == before.0 && after.2 == before.2 && after.1 == before.1.push(n)
            &&& after.2.contains(n) && !before.2.contains(n) ==> forall|j: int|
                0 <= j < deps_of(g, n).len() ==> before.2.contains(#[trigger] deps_of(g, n)[j])
        }),
{
    assert(remaining.take(i + 1).drop_last() =~= remaining.take(i));
    assert(remaining.take(i + 1).last() == remaining[i]);
}

/// A round that gives packages installs a group, so fewer groups wait.
pub proof fn lemma_round_len(g: Groups, remaining: Seq<Seq<char>>, installed: Set<Seq<char>>)
    ensures
        round(g, remaining, installed).1.len() <= remaining.len(),
        round(g, remaining, installed).0.len() > 0 ==> round(g, remaining, installed).1.len()
            < remaining.len(),
    decreases remaining.len(),
{
    if remaining.len() > 0 {
        lemma_round_len(g, remaining.drop_last(), installed);
    }
}

/// The rounds of installation: each round's packages sorted without repeats.
/// Rounds that give no package are left out; a round in which no group can be
/// installed while some still wait ends the order (a dependency cycle, or a
/// dependency on a missing group).
pub open spec fn rounds(g: Groups, remaining: Seq<Seq<char>>, installed: Set<Seq<char>>) -> Seq<
    Seq<Seq<char>>,
>
    decreases remaining.len(),
{
    if remaining.len() == 0 {
        Seq::empty()
    } else {
        let (cur, still, inst) = round(g, remaining, installed);
        proof {
            lemma_round_len(g, remaining, installed);
        }
        if cur.len() == 0 && still.len() > 0 {
            Seq::empty()
        } else if cur.len() > 0 {
            seq![sort_dedup_spec(cur)] + rounds(g, still, inst)
        } else {
            rounds(g, still, inst)
        }
    }
}

/// Where the rounds stop for want of an installable group: the groups still
/// waiting then (held up by a dependency cycle, or by a dependency that is
/// missing or not requested), or `None` when every round goes through.
pub open spec fn stall(g: Groups, remaining: Seq<Seq<char>>, installed: Set<Seq<char>>) -> Option<
    Seq<Seq<char>>,
>
    decreases remaining.len(),
{
    if remaining.len() == 0 {
        None
    } else {
        let (cur, still, inst) = round(g, remaining, installed);
        proof {
            lemma_round_len(g, remaining, installed);
        }
        if cur.len() == 0 && still.len() > 0 {
            Some(still)
        } else {
            stall(g, still, inst)
        }
    }
}

/// The rounds carry what they installed: after a round that installs
/// packages, the next rounds go over the groups still waiting with every group
/// installed so far counted as installed, and a round never uninstalls a group.
pub proof fn law_rounds_carry_installed(g: Groups, remaining: Seq<Seq<char>>, installed: Set<Seq<char>>)
    requires
        remaining.len() > 0,
        round(g, remaining, installed).0.len() > 0,
    ensures
        installed.subset_of(round(g, remaining, installed).2),
        rounds(g, remaining, installed) == seq![sort_dedup_spec(round(g, remaining, installed).0)]
            + rounds(g, round(g, remaining, installed).1, round(g, remaining, installed).2),
{
    lemma_round_grows(g, remaining, installed);
}

proof fn lemma_round_grows(g: Groups, remaining: Seq<Seq<char>>, installed: Set<Seq<char>>)
    ensures
        installed.subset_of(round(g, remaining, installed).2),
    decreases remaining.len(),
{
    if remaining.len() > 0 {
        lemma_round_grows(g, remaining.drop_last(), installed);
    }
}

/// The texts of a list of lists.
pub open spec fn nested_views(v: Seq<Vec<String>>) -> Seq<Seq<Seq<char>>> {
    Seq::new(v.len(), |i: int| views(v[i]@))
}

/// Whether every name of `names` is in the list `installed`.
fn all_installed(names: &Vec<String>, installed: &Vec<String>) -> (r: bool)
    ensures
        r == forall|j: int| 0 <= j < names@.len() ==> nset(installed@).contains(#[trigger] views(names@)[j]),
{
    let mut j: usize = 0;
    while j < names.len()
        invariant
            j <= names@.len(),
            forall|k: int| 0 <= k < j ==> nset(installed@).contains(#[trigger] views(names@)[k]),
        decreases names.len() - j,
    {
        if !list_contains(installed, names[j].as_str()) {
            assert(!nset(installed@).contains(views(names@)[j as int]));
            return false;
        }
        j = j + 1;
    }
    true
}

/// Adds `name` to the list used as a set, unless it is there.
fn add_to_set(set: &mut Vec<String>, name: &str)
    ensures
        nset(final(set)@) == nset(old(set)@).insert(name@),
{
    if !list_contains(set, name) {
        let ghost before = set@;
        let c = crate::text::str_to_string(name);
        set.push(c);
        proof {
            lemma_views_push(before, c);
            views(before).lemma_push_to_set_commute(name@);
        }
    } else {
        assert(nset(set@).insert(name@) =~= nset(set@));
    }
}

/// The packages to install round by round: in each round, the requested groups
/// (in order) whose dependencies are installed are installed; each round's
/// packages are sorted and without repeats.
pub fn get_installation_order(s: &Settings, requested_groups: &Vec<String>) -> (r: Vec<Vec<String>>)
    ensures
        nested_views(r@) == rounds(s.groups@, views(requested_groups@), Set::empty()),
{
    order_and_stall(s, requested_groups).0
}

/// The groups still waiting where [`get_installation_order`] stops for want of
/// an installable group, or `None` when it goes through.
pub fn installation_stall(s: &Settings, requested_groups: &Vec<String>) -> (r: Option<Vec<String>>)
    ensures
        match r {
            Some(v) => stall(s.groups@, views(requested_groups@), Set::empty()) == Some(views(v@)),
            None => stall(s.groups@, views(requested_groups@), Set::empty()) is None,
        },
{
    order_and_stall(s, requested_groups).1
}

/// The message when the installation order stops with groups waiting.
pub fn stall_message(waiting: &Vec<String>) -> (r: String)
    ensures
        r@ == "Cycle of dependies : "@ + crate::cli::commands::debug_list(views(waiting@)),
{
    let l = crate::cli::commands::debug_strings(waiting);
    crate::text::concat("Cycle of dependies : ", l.as_str())
}

fn order_and_stall(s: &Settings, requested_groups: &Vec<String>) -> (r: (Vec<Vec<String>>, Option<Vec<String>>))
    ensures
        nested_views(r.0@) == rounds(s.groups@, views(requested_groups@), Set::empty()),
        match r.1 {
            Some(v) => stall(s.groups@, views(requested_groups@), Set::empty()) == Some(views(v@)),
            None => stall(s.groups@, views(requested_groups@), Set::empty()) is None,
        },
{
    let groups = &s.groups;
    let ghost g = groups@;
    let mut result: Vec<Vec<String>> = Vec::new();
    let mut installed: Vec<String> = Vec::new();
    let mut remaining = copy_strings(requested_groups);
    let ghost target = rounds(g, views(requested_groups@), Set::empty());
    let ghost target_stall = stall(g, views(requested_groups@), Set::empty());
    assert(nset(installed@) =~= Set::<Seq<char>>::empty());
    assert(nested_views(result@) =~= Seq::<Seq<Seq<char>>>::empty());
    assert(target =~= Seq::<Seq<Seq<char>>>::empty() + rounds(g, views(remaining@), nset(installed@)));
    while remaining.len() > 0
        invariant
            g == groups@,
            g == s.groups@,
            target == rounds(g, views(requested_groups@), Set::empty()),
            target == nested_views(result@) + rounds(g, views(remaining@), nset(installed@)),
            target_stall == stall(g, views(requested_groups@), Set::empty()),
            target_stall == stall(g, views(remaining@), nset(installed@)),
        decreases remaining.len(),
    {
        let mut current_round: Vec<String> = Vec::new();
        let mut still_remaining: Vec<String> = Vec::new();
        let ghost rem = views(remaining@);
        let ghost inst0 = nset(installed@);
        let mut i: usize = 0;
        proof {
            assert(rem.subrange(0, 0) =~= Seq::<Seq<char>>::empty());
            assert(views(current_round@) =~= Seq::<Seq<char>>::empty());
            assert(views(still_remaining@) =~= Seq::<Seq<char>>::empty());
        }
        while i < remaining.len()
            invariant
                g == groups@,
                rem == views(remaining@),
                i <= rem.len(),
                round(g, rem.subrange(0, i as int), inst0) == (
                    views(current_round@),
                    views(still_remaining@),
                    nset(installed@),
                ),
            decreases rem.len() - i,
        {
            let name = &remaining[i];
            assert(rem.subrange(0, i + 1).drop_last() =~= rem.subrange(0, i as int));
            assert(rem.subrange(0, i + 1).last() == name@);
            match groups.get(name.as_str()) {
                Some(group) => {
                    let ghost v = group@;
                    let ghost inst_now = nset(installed@);
                    let ok = all_installed(&group.dependencies, &installed);
                    assert(v.dependencies == views(group.dependencies@));
                    assert(ok == forall|j: int|
                        0 <= j < v.dependencies.len() ==> inst_now.contains(#[trigger] v.dependencies[j])) by {
                        if ok {
                            assert forall|j: int| 0 <= j < v.dependencies.len() implies inst_now.contains(
                                #[trigger] v.dependencies[j],
                            ) by {
                                assert(inst_now.contains(views(group.dependencies@)[j]));
                            }
                        } else {
                            let j = choose|j: int|
                                !(0 <= j < group.dependencies@.len() ==> inst_now.contains(
                                    #[trigger] views(group.dependencies@)[j],
                                ));
                            assert(!inst_now.contains(v.dependencies[j]));
                        }
                    }
                    if ok {
                        extend_strings(&mut current_round, &group.packages);
                        add_to_set(&mut installed, name.as_str());
                    } else {
                        let ghost before = still_remaining@;
                        let c = copy_string(name);
                        still_remaining.push(c);
                        proof {
                            lemma_views_push(before, c);
                        }
                    }
                },
                None => {},
            }
            i = i + 1;
        }
        assert(rem.subrange(0, rem.len() as int) =~= rem);
        proof {
            lemma_round_len(g, rem, inst0);
        }
        if current_round.len() == 0 && still_remaining.len() > 0 {
            // No group can be installed although some wait: stop here.
            assert(rounds(g, rem, inst0) =~= Seq::<Seq<Seq<char>>>::empty());
            assert(nested_views(result@) + Seq::<Seq<Seq<char>>>::empty() =~= nested_views(result@));
            return (result, Some(still_remaining));
        }
        if current_round.len() > 0 {
            let ghost cur = views(current_round@);
            let sorted = sort_dedup(current_round);
            proof {
                lemma_sort_dedup_spec(views(sorted@), cur);
            }
            let ghost before = result@;
            result.push(sorted);
            assert(nested_views(result@) =~= nested_views(before).push(sort_dedup_spec(cur)));
            assert(nested_views(before).push(sort_dedup_spec(cur)) + rounds(
                g,
                views(still_remaining@),
                nset(installed@),
            ) =~= nested_views(before) + (seq![sort_dedup_spec(cur)] + rounds(
                g,
                views(still_remaining@),
                nset(installed@),
            )));
        }
        remaining = still_remaining;
    }
    assert(nested_views(result@) + rounds(g, views(remaining@), nset(installed@)) =~= nested_views(
        result@,
    ));
    (result, None)
}

/// The lists of `rounds` one after the other.
pub open spec fn concat_all(rs: Seq<Seq<Seq<char>>>) -> Seq<Seq<char>>
    decreases rs.len(),
{
    if rs.len() == 0 {
        Seq::empty()
    } else {
        concat_all(rs.drop_last()) + rs.last()
    }
}

/// The packages of [`get_installation_order`], round after round.
pub fn get_packages_with_order(s: &Settings, requested_groups: &Vec<String>) -> (r: Vec<String>)
    ensures
        views(r@) == concat_all(rounds(s.groups@, views(requested_groups@), Set::empty())),
{
    let order = get_installation_order(s, requested_groups);
    let ghost nv = nested_views(order@);
    let mut r: Vec<String> = Vec::new();
    let mut i: usize = 0;
    assert(views(r@) =~= concat_all(nv.subrange(0, 0)));
    while i < order.len()
        invariant
            i <= order@.len(),
            nv == nested_views(order@),
            views(r@) == concat_all(nv.subrange(0, i as int)),
        decreases order.len() - i,
    {
        extend_strings(&mut r, &order[i]);
        assert(nv.subrange(0, i + 1).drop_last() =~= nv.subrange(0, i as int));
        i = i + 1;
    }
    assert(nv.subrange(0, order@.len() as int) =~= nv);
    r
}

// ---------------------------------------------------------------------------
// What a group needs
// ---------------------------------------------------------------------------

/// The packages of the groups of `s`.
pub open spec fn all_pkgs(g: Groups, s: Set<Seq<char>>) -> Set<Seq<char>> {
    Set::new(|x: Seq<char>| exists|n: Seq<char>| s.contains(n) && #[trigger] pkgs_of(g, n).contains(x))
}

/// The packages that group `group_name` needs: its own and those of every group
/// it depends on, directly or not; sorted and without repeats. A missing group
/// needs nothing.
pub fn check_dependencies(s: &Settings, group_name: &str) -> (r: Vec<String>)
    ensures
        strictly_sorted(views(r@)),
        views(r@).to_set() == all_pkgs(s.groups@, reach_set(s.groups@, group_name@)),
{
    let groups = &s.groups;
    groups.keys_unique_proof();
    let ghost g = groups@;
    let ghost root = group_name@;
    let mut deps: Vec<String> = Vec::new();
    let mut to_check: Vec<String> = Vec::new();
    let mut checked: Vec<String> = Vec::new();
    let first = crate::text::str_to_string(group_name);
    to_check.push(first);
    proof {
        assert(views(to_check@)[0] == root);
        assert(nset(checked@) =~= Set::<Seq<char>>::empty());
        assert(nset(deps@) =~= Set::<Seq<char>>::empty());
        assert(all_pkgs(g, Set::empty()) =~= Set::<Seq<char>>::empty());
    }
    loop
        invariant
            g == groups@,
            g == s.groups@,
            unique_keys(g),
            forall|n: Seq<char>| nset(checked@).contains(n) ==> reaches(g, root, n),
            forall|j: int|
                0 <= j < to_check@.len() ==> (#[trigger] views(to_check@)[j] == root || exists|c: Seq<char>|
                    nset(checked@).contains(c) && deps_of(g, c).contains(views(to_check@)[j])),
            present(g, root) ==> nset(checked@).contains(root) || views(to_check@).contains(root),
            forall|c: Seq<char>, d: Seq<char>|
                nset(checked@).contains(c) && #[trigger] deps_of(g, c).contains(d) && present(g, d)
                    ==> nset(checked@).contains(d) || views(to_check@).contains(d),
            nset(deps@) == all_pkgs(g, nset(checked@)),
        ensures
            to_check@.len() == 0,
        decreases count_unchecked(g, views(checked@)), to_check@.len(),
    {
        let ghost tc = views(to_check@);
        let ghost ck = nset(checked@);
        let ghost ckv = views(checked@);
        match to_check.pop() {
            None => {
                break;
            },
            Some(current) => {
                proof {
                    assert(views(to_check@) =~= tc.drop_last());
                    assert(tc.last() == current@);
                }
                if list_contains(&checked, current.as_str()) {
                    proof {
                        assert forall|d: Seq<char>|
                            tc.contains(d) && d != current@ implies views(to_check@).contains(d) by {
                            let j = choose|j: int| 0 <= j < tc.len() && tc[j] == d;
                            assert(views(to_check@)[j] == d);
                        }
                    }
                } else {
                    match groups.get(current.as_str()) {
                        Some(group) => {
                            proof {
                                lemma_lookup(g, current@);
                                // The current group is reached from the root.
                                if current@ != root {
                                    let c = choose|c: Seq<char>|
                                        ck.contains(c) && deps_of(g, c).contains(tc[tc.len() - 1]);
                                    assert(reaches(g, root, c));
                                    lemma_extend_reach(g, root, c, current@);
                                } else {
                                    lemma_single_path(g, root);
                                }
                            }
                            let ghost before_deps = deps@;
                            extend_strings(&mut deps, &group.packages);
                            let ghost before_checked = checked@;
                            let c = copy_string(&current);
                            checked.push(c);
                            proof {
                                lemma_views_push(before_checked, c);
                                views(before_checked).lemma_push_to_set_commute(current@);
                                assert forall|y: Seq<char>| ckv.contains(y) implies views(checked@).contains(y) by {
                                    let m = choose|m: int| 0 <= m < ckv.len() && ckv[m] == y;
                                    assert(views(checked@)[m] == y);
                                }
                                lemma_to_set_concat(views(before_deps), views(group.packages@));
                                assert(nset(deps@) =~= all_pkgs(g, nset(checked@))) by {
                                    assert forall|x: Seq<char>| nset(deps@).contains(x) <==> all_pkgs(
                                        g,
                                        nset(checked@),
                                    ).contains(x) by {
                                        if views(group.packages@).to_set().contains(x) {
                                            assert(pkgs_of(g, current@).contains(x));
                                        }
                                        if all_pkgs(g, nset(checked@)).contains(x) {
                                            let n = choose|n: Seq<char>|
                                                nset(checked@).contains(n) && #[trigger] pkgs_of(
                                                    g,
                                                    n,
                                                ).contains(x);
                                            if n != current@ {
                                                assert(ck.contains(n));
                                            }
                                        }
                                    }
                                }
                                crate::packages::install::lemma_count_unchecked_pub(
                                    g,
                                    ckv,
                                    views(checked@),
                                    current@,
                                );
                            }
                            let ghost tc1 = views(to_check@);
                            assert(tc1 == tc.drop_last());
                            let mut k: usize = 0;
                            while k < group.dependencies.len()
                                invariant
                                    g == groups@,
                                    tc1 == tc.drop_last(),
                                    k <= group.dependencies@.len(),
                                    views(group.dependencies@) == deps_of(g, current@),
                                    nset(checked@).contains(current@),
                                    views(to_check@).len() >= tc1.len(),
                                    forall|j: int| 0 <= j < tc1.len() ==> views(to_check@)[j] == tc1[j],
                                    forall|j: int|
                                        tc1.len() <= j < views(to_check@).len() ==> deps_of(
                                            g,
                                            current@,
                                        ).contains(#[trigger] views(to_check@)[j]),
                                    forall|j: int|
                                        0 <= j < k ==> nset(checked@).contains(
                                            #[trigger] views(group.dependencies@)[j],
                                        ) || views(to_check@).contains(views(group.dependencies@)[j]),
                                decreases group.dependencies@.len() - k,
                            {
                                let dep = &group.dependencies[k];
                                assert(views(group.dependencies@)[k as int] == dep@);
                                assert(deps_of(g, current@).contains(dep@));
                                if !list_contains(&checked, dep.as_str()) {
                                    let ghost before = to_check@;
                                    let c2 = copy_string(dep);
                                    to_check.push(c2);
                                    proof {
                                        lemma_views_push(before, c2);
                                        assert forall|j: int| 0 <= j < views(before).len() implies views(to_check@)[j] == views(before)[j] by {}
                                        assert(views(to_check@)[views(to_check@).len() - 1] == dep@);
                                        assert forall|j: int| 0 <= j < k implies nset(checked@).contains(
                                            #[trigger] views(group.dependencies@)[j],
                                        ) || views(to_check@).contains(views(group.dependencies@)[j]) by {
                                            if views(before).contains(views(group.dependencies@)[j]) {
                                                let m = choose|m: int|
                                                    0 <= m < views(before).len() && views(before)[m]
                                                        == views(group.dependencies@)[j];
                                                assert(views(to_check@)[m] == views(before)[m]);
                                            }
                                        }
                                    }
                                }
                                k = k + 1;
                            }
                            proof {
                                let tcn = views(to_check@);
                                assert forall|j: int| 0 <= j < tcn.len() implies (#[trigger] tcn[j] == root
                                    || exists|c: Seq<char>|
                                    nset(checked@).contains(c) && deps_of(g, c).contains(tcn[j])) by {
                                    if j < tc1.len() {
                                        assert(tcn[j] == tc1[j]);
                                        assert(tc1[j] == tc[j]);
                                        if tc[j] != root {
                                            let c = choose|c: Seq<char>|
                                                ck.contains(c) && deps_of(g, c).contains(tc[j]);
                                            assert(nset(checked@).contains(c));
                                        }
                                    } else {
                                        assert(deps_of(g, current@).contains(tcn[j]));
                                    }
                                }
                                assert forall|c: Seq<char>, d: Seq<char>|
                                    nset(checked@).contains(c) && #[trigger] deps_of(g, c).contains(d)
                                        && present(g, d) implies nset(checked@).contains(d)
                                    || tcn.contains(d) by {
                                    if c == current@ {
                                        let j = choose|j: int|
                                            0 <= j < deps_of(g, c).len() && deps_of(g, c)[j] == d;
                                        assert(views(group.dependencies@)[j] == d);
                                    } else {
                                        assert(ck.contains(c));
                                        if tc.contains(d) && !nset(checked@).contains(d) {
                                            let m = choose|m: int| 0 <= m < tc.len() && tc[m] == d;
                                            assert(m < tc1.len());
                                            assert(tcn[m] == tc1[m]);
                                            assert(tcn[m] == d);
                                        }
                                    }
                                }
                                if present(g, root) && !nset(checked@).contains(root) {
                                    let m = choose|m: int| 0 <= m < tc.len() && tc[m] == root;
                                    assert(m < tc1.len());
                                    assert(tcn[m] == tc1[m]);
                                    assert(tcn[m] == root);
                                }
                            }
                        },
                        None => {
                            proof {
                                assert forall|d: Seq<char>|
                                    tc.contains(d) && present(g, d) && d != current@ implies views(
                                        to_check@,
                                    ).contains(d) by {
                                    let j = choose|j: int| 0 <= j < tc.len() && tc[j] == d;
                                    assert(views(to_check@)[j] == d);
                                }
                            }
                        },
                    }
                }
            },
        }
    }
    proof {
        let ck = nset(checked@);
        assert(closed(g, ck)) by {
            assert forall|n: Seq<char>| ck.contains(n) implies present(g, n) by {
                assert(reaches(g, root, n));
                let p = choose|p: Seq<Seq<char>>| #[trigger] is_path(g, p) && p[0] == root && p.last() == n;
                assert(present(g, p[p.len() - 1]));
            }
        }
        assert forall|x: Seq<char>| reach_set(g, root).contains(x) <==> ck.contains(x) by {
            if reach_set(g, root).contains(x) {
                let p = choose|p: Seq<Seq<char>>| #[trigger] is_path(g, p) && p[0] == root && p.last() == x;
                assert(present(g, p[0]));
                lemma_closed_reach(g, ck, root, x);
            }
        }
        assert(reach_set(g, root) =~= ck);
    }
    sort_dedup(deps)
}

/// A group reached from `a` extends what `a` reaches by its dependencies.
proof fn lemma_extend_reach(g: Groups, a: Seq<char>, c: Seq<char>, d: Seq<char>)
    requires
        reaches(g, a, c),
        deps_of(g, c).contains(d),
        present(g, d),
    ensures
        reaches(g, a, d),
{
    let p = choose|p: Seq<Seq<char>>| #[trigger] is_path(g, p) && p[0] == a && p.last() == c;
    let q = p.push(d);
    assert forall|i: int| 0 <= i < q.len() implies present(g, #[trigger] q[i]) by {
        if i < p.len() {
            assert(q[i] == p[i]);
        }
    }
    assert forall|i: int| 0 <= i < q.len() - 1 implies deps_of(g, #[trigger] q[i]).contains(
        q[i + 1],
    ) by {
        assert(q[i] == p[i]);
        if i < p.len() - 1 {
            assert(q[i + 1] == p[i + 1]);
        }
    }
    assert(is_path(g, q));
}

// ---------------------------------------------------------------------------
// Laws of dependencies
// ---------------------------------------------------------------------------

/// A group needs everything that its dependencies need: when `a` depends on
/// `b`, the packages `check_dependencies` lists for `b` are among those it
/// lists for `a`.
pub proof fn law_needs_include_dependency_needs(g: Groups, a: Seq<char>, b: Seq<char>)
    requires
        crate::packages::graph::present(g, a),
        crate::packages::graph::deps_of(g, a).contains(b),
    ensures
        all_pkgs(g, reach_set(g, b)).subset_of(all_pkgs(g, reach_set(g, a))),
{
    assert forall|x: Seq<char>| all_pkgs(g, reach_set(g, b)).contains(x) implies all_pkgs(
        g,
        reach_set(g, a),
    ).contains(x) by {
        let n = choose|n: Seq<char>| reach_set(g, b).contains(n) && #[trigger] pkgs_of(g, n).contains(x);
        crate::packages::graph::lemma_reaches_step(g, a, b, n);
        assert(reach_set(g, a).contains(n));
    }
}

/// A group needs its own packages.
pub proof fn law_group_needs_its_packages(g: Groups, n: Seq<char>, x: Seq<char>)
    requires
        crate::packages::graph::present(g, n),
        pkgs_of(g, n).contains(x),
    ensures
        all_pkgs(g, reach_set(g, n)).contains(x),
{
    crate::packages::graph::lemma_single_path(g, n);
    assert(reach_set(g, n).contains(n));
}

/// What `check_dependencies` lists for a group is exactly what installing that
/// group alone installs, official and AUR packages together.
pub proof fn law_needs_are_what_install_installs(g: Groups, n: Seq<char>)
    ensures
        all_pkgs(g, reach_set(g, n)) == crate::packages::install::reachable_packages(g, seq![n]),
{
    assert forall|x: Seq<char>| all_pkgs(g, reach_set(g, n)).contains(x) <==> crate::packages::install::reachable_packages(
        g,
        seq![n],
    ).contains(x) by {
        if all_pkgs(g, reach_set(g, n)).contains(x) {
            let m = choose|m: Seq<char>| reach_set(g, n).contains(m) && #[trigger] pkgs_of(g, m).contains(x);
            assert(seq![n][0] == n);
            assert(crate::packages::graph::reachable_from(g, seq![n], m));
        }
        if crate::packages::install::reachable_packages(g, seq![n]).contains(x) {
            let m = choose|m: Seq<char>|
                crate::packages::graph::reachable_from(g, seq![n], m) && #[trigger] pkgs_of(g, m).contains(x);
            let i = choose|i: int| 0 <= i < seq![n].len() && #[trigger] reaches(g, seq![n][i], m);
            assert(reach_set(g, n).contains(m));
        }
    }
    assert(all_pkgs(g, reach_set(g, n)) =~= crate::packages::install::reachable_packages(g, seq![n]));
}

/// A group is an AUR group when it is the `aur` group, or when one of its
/// dependencies is an AUR group.
pub proof fn law_aur_is_inherited(g: Groups, n: Seq<char>, d: Seq<char>)
    ensures
        crate::packages::graph::present(g, "aur"@) ==> crate::packages::graph::is_aur(g, "aur"@),
        crate::packages::graph::present(g, n) && crate::packages::graph::deps_of(g, n).contains(d)
            && crate::packages::graph::is_aur(g, d) ==> crate::packages::graph::is_aur(g, n),
{
    if crate::packages::graph::present(g, "aur"@) {
        crate::packages::graph::lemma_single_path(g, "aur"@);
    }
    if crate::packages::graph::present(g, n) && crate::packages::graph::deps_of(g, n).contains(d)
        && crate::packages::graph::is_aur(g, d) {
        crate::packages::graph::lemma_reaches_step(g, n, d, "aur"@);
    }
}

} // verus!
