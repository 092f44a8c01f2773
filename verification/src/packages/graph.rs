//! The dependency graph of package groups: paths, reachability and cycles.
use vstd::prelude::*;
use crate::assoc::{lemma_lookup, lookup, unique_keys};
use crate::config::settings::GroupView;

verus! {

/// The package groups by name, as a table.
pub type Groups = Seq<(Seq<char>, GroupView)>;

/// A group of that name exists.
pub open spec fn present(g: Groups, n: Seq<char>) -> bool {
    lookup(g, n) is Some
}

/// The dependencies of a group (none for a missing group).
pub open spec fn deps_of(g: Groups, n: Seq<char>) -> Seq<Seq<char>> {
    match lookup(g, n) {
        Some(v) => v.dependencies,
        None => Seq::empty(),
    }
}

/// The packages of a group (none for a missing group).
pub open spec fn pkgs_of(g: Groups, n: Seq<char>) -> Seq<Seq<char>> {
    match lookup(g, n) {
        Some(v) => v.packages,
        None => Seq::empty(),
    }
}

/// `p` is a chain of existing groups, each depending on the next.
pub open spec fn is_path(g: Groups, p: Seq<Seq<char>>) -> bool {
    &&& p.len() > 0
    &&& forall|i: int| 0 <= i < p.len() ==> present(g, #[trigger] p[i])
    &&& forall|i: int| 0 <= i < p.len() - 1 ==> deps_of(g, #[trigger] p[i]).contains(p[i + 1])
}

/// Group `b` is `a` or one of its direct or indirect dependencies, both existing.
pub open spec fn reaches(g: Groups, a: Seq<char>, b: Seq<char>) -> bool {
    exists|p: Seq<Seq<char>>| #[trigger] is_path(g, p) && p[0] == a && p.last() == b
}

/// Group `n` is reached from one of `roots`.
pub open spec fn reachable_from(g: Groups, roots: Seq<Seq<char>>, n: Seq<char>) -> bool {
    exists|i: int| 0 <= i < roots.len() && #[trigger] reaches(g, roots[i], n)
}

/// The groups reached from `n`.
pub open spec fn reach_set(g: Groups, n: Seq<char>) -> Set<Seq<char>> {
    Set::new(|x: Seq<char>| reaches(g, n, x))
}

/// The groups reached from any of `ds`.
pub open spec fn reach_all(g: Groups, ds: Seq<Seq<char>>) -> Set<Seq<char>> {
    Set::new(|x: Seq<char>| exists|j: int| 0 <= j < ds.len() && #[trigger] reaches(g, ds[j], x))
}

/// No chain of groups that starts at one of `roots` comes back to a group it
/// already passed: the dependencies reached from the roots have no cycle.
pub open spec fn acyclic_from(g: Groups, roots: Seq<Seq<char>>) -> bool {
    forall|p: Seq<Seq<char>>| #[trigger] is_path(g, p) && roots.contains(p[0]) ==> p.no_duplicates()
}

/// A group is an AUR group when the group named `aur` is among its direct or
/// indirect dependencies, or is the group itself.
pub open spec fn is_aur(g: Groups, n: Seq<char>) -> bool {
    reaches(g, n, "aur"@)
}

/// Every group of `s` exists, and every existing dependency of a group of `s`
/// is in `s`.
pub open spec fn closed(g: Groups, s: Set<Seq<char>>) -> bool {
    &&& forall|n: Seq<char>| s.contains(n) ==> present(g, n)
    &&& forall|n: Seq<char>, d: Seq<char>|
        s.contains(n) && #[trigger] deps_of(g, n).contains(d) && present(g, d) ==> s.contains(d)
}

/// The packages of the groups of `s` whose AUR-ness is `want_aur`.
pub open spec fn pkgset(g: Groups, s: Set<Seq<char>>, want_aur: bool) -> Set<Seq<char>> {
    Set::new(
        |x: Seq<char>|
            exists|n: Seq<char>|
                s.contains(n) && is_aur(g, n) == want_aur && #[trigger] pkgs_of(g, n).contains(x),
    )
}

/// The packages of the groups reached from `roots` whose AUR-ness is `want_aur`.
pub open spec fn typed_packages(g: Groups, roots: Seq<Seq<char>>, want_aur: bool) -> Set<Seq<char>> {
    Set::new(
        |x: Seq<char>|
            exists|n: Seq<char>|
                reachable_from(g, roots, n) && is_aur(g, n) == want_aur
                    && #[trigger] pkgs_of(g, n).contains(x),
    )
}

/// The single group `n` is a path when it exists.
pub proof fn lemma_single_path(g: Groups, n: Seq<char>)
    requires
        present(g, n),
    ensures
        reaches(g, n, n),
{
    let p = seq![n];
    assert(is_path(g, p));
}

/// A missing group reaches nothing.
pub proof fn lemma_absent_reaches_nothing(g: Groups, n: Seq<char>, x: Seq<char>)
    requires
        !present(g, n),
    ensures
        !reaches(g, n, x),
{
    if reaches(g, n, x) {
        let p = choose|p: Seq<Seq<char>>| #[trigger] is_path(g, p) && p[0] == n && p.last() == x;
        assert(present(g, p[0]));
    }
}

/// A group reaches what its dependencies reach.
pub proof fn lemma_reaches_step(g: Groups, a: Seq<char>, b: Seq<char>, x: Seq<char>)
    requires
        present(g, a),
        deps_of(g, a).contains(b),
        reaches(g, b, x),
    ensures
        reaches(g, a, x),
{
    let p = choose|p: Seq<Seq<char>>| #[trigger] is_path(g, p) && p[0] == b && p.last() == x;
    let q = seq![a] + p;
    assert(q[0] == a);
    assert(q.last() == x);
    assert forall|i: int| 0 <= i < q.len() implies present(g, #[trigger] q[i]) by {
        if i > 0 {
            assert(q[i] == p[i - 1]);
        }
    }
    assert forall|i: int| 0 <= i < q.len() - 1 implies deps_of(g, #[trigger] q[i]).contains(
        q[i + 1],
    ) by {
        if i > 0 {
            assert(q[i] == p[i - 1]);
            assert(q[i + 1] == p[i]);
        }
    }
    assert(is_path(g, q));
}

/// What an existing group reaches is itself or what one of its dependencies reaches.
pub proof fn lemma_reach_decompose(g: Groups, n: Seq<char>, x: Seq<char>)
    requires
        present(g, n),
    ensures
        reaches(g, n, x) <==> (x == n || exists|k: int|
            0 <= k < deps_of(g, n).len() && #[trigger] reaches(g, deps_of(g, n)[k], x)),
{
    if reaches(g, n, x) && x != n {
        let p = choose|p: Seq<Seq<char>>| #[trigger] is_path(g, p) && p[0] == n && p.last() == x;
        assert(p.len() > 1);
        let q = p.drop_first();
        assert(q[0] == p[1]);
        assert(deps_of(g, p[0]).contains(p[1]));
        let k = choose|k: int| 0 <= k < deps_of(g, n).len() && deps_of(g, n)[k] == p[1];
        assert forall|i: int| 0 <= i < q.len() implies present(g, #[trigger] q[i]) by {
            assert(q[i] == p[i + 1]);
        }
        assert forall|i: int| 0 <= i < q.len() - 1 implies deps_of(g, #[trigger] q[i]).contains(
            q[i + 1],
        ) by {
            assert(q[i] == p[i + 1]);
            assert(q[i + 1] == p[i + 2]);
        }
        assert(is_path(g, q));
        assert(q.last() == x);
        assert(reaches(g, deps_of(g, n)[k], x));
    }
    if x == n {
        lemma_single_path(g, n);
    }
    if exists|k: int| 0 <= k < deps_of(g, n).len() && #[trigger] reaches(g, deps_of(g, n)[k], x) {
        let k = choose|k: int| 0 <= k < deps_of(g, n).len() && #[trigger] reaches(g, deps_of(g, n)[k], x);
        lemma_reaches_step(g, n, deps_of(g, n)[k], x);
    }
}

/// A closed set holds everything that its groups reach.
pub proof fn lemma_closed_reach(g: Groups, s: Set<Seq<char>>, n: Seq<char>, x: Seq<char>)
    requires
        closed(g, s),
        s.contains(n),
        reaches(g, n, x),
    ensures
        s.contains(x),
{
    let p = choose|p: Seq<Seq<char>>| #[trigger] is_path(g, p) && p[0] == n && p.last() == x;
    lemma_closed_path(g, s, p, p.len() - 1);
}

proof fn lemma_closed_path(g: Groups, s: Set<Seq<char>>, p: Seq<Seq<char>>, i: int)
    requires
        closed(g, s),
        is_path(g, p),
        s.contains(p[0]),
        0 <= i < p.len(),
    ensures
        s.contains(p[i]),
    decreases i,
{
    if i > 0 {
        lemma_closed_path(g, s, p, i - 1);
        assert(deps_of(g, p[i - 1]).contains(p[i]));
        assert(present(g, p[i]));
    }
}

/// A chain of different existing groups is no longer than the table.
pub proof fn lemma_distinct_groups_bound(g: Groups, p: Seq<Seq<char>>)
    requires
        unique_keys(g),
        p.no_duplicates(),
        forall|i: int| 0 <= i < p.len() ==> present(g, #[trigger] p[i]),
    ensures
        p.len() <= g.len(),
{
    let keys = Seq::new(g.len(), |i: int| g[i].0);
    assert forall|x: Seq<char>| p.to_set().contains(x) implies keys.to_set().contains(x) by {
        let i = choose|i: int| 0 <= i < p.len() && p[i] == x;
        assert(present(g, p[i]));
        lemma_lookup(g, x);
        let j = choose|j: int| 0 <= j < g.len() && g[j].0 == x;
        assert(keys[j] == x);
    }
    p.unique_seq_to_set();
    keys.lemma_cardinality_of_set();
    vstd::seq_lib::seq_to_set_is_finite(keys);
    vstd::set_lib::lemma_len_subset(p.to_set(), keys.to_set());
}

/// A chain that starts at a root and passes a group twice shows a cycle.
pub proof fn lemma_repeat_is_cycle(g: Groups, roots: Seq<Seq<char>>, p: Seq<Seq<char>>)
    requires
        is_path(g, p),
        roots.contains(p[0]),
        !p.no_duplicates(),
    ensures
        !acyclic_from(g, roots),
{
}

/// The packages of a union are the packages of its parts.
pub proof fn lemma_pkgset_union(g: Groups, a: Set<Seq<char>>, b: Set<Seq<char>>, want: bool)
    ensures
        pkgset(g, a.union(b), want) == pkgset(g, a, want).union(pkgset(g, b, want)),
{
    assert(pkgset(g, a.union(b), want) =~= pkgset(g, a, want).union(pkgset(g, b, want)));
}

/// The packages of a single group.
pub proof fn lemma_pkgset_single(g: Groups, n: Seq<char>, want: bool)
    ensures
        pkgset(g, set![n], want) == (if is_aur(g, n) == want {
            pkgs_of(g, n).to_set()
        } else {
            Set::empty()
        }),
{
    if is_aur(g, n) == want {
        assert forall|x: Seq<char>| pkgset(g, set![n], want).contains(x) <==> pkgs_of(
            g,
            n,
        ).to_set().contains(x) by {
            if pkgs_of(g, n).contains(x) {
                assert(set![n].contains(n));
            }
        }
        assert(pkgset(g, set![n], want) =~= pkgs_of(g, n).to_set());
    } else {
        assert(pkgset(g, set![n], want) =~= Set::empty());
    }
}

} // verus!
