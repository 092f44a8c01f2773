//! Tables keyed by text: the mathematical model of the key/value maps that the
//! configuration and the package groups are kept in.
use vstd::prelude::*;
use crate::text::{copy_string, str_eq};

verus! {

/// No key occurs twice in the table.
pub open spec fn unique_keys<V>(e: Seq<(Seq<char>, V)>) -> bool {
    forall|i: int, j: int| 0 <= i < j < e.len() ==> e[i].0 != e[j].0
}

/// The key `k` occurs in the table.
pub open spec fn has_key<V>(e: Seq<(Seq<char>, V)>, k: Seq<char>) -> bool {
    exists|i: int| 0 <= i < e.len() && e[i].0 == k
}

/// The value stored under `k`, looking from the end of the table.
pub open spec fn lookup<V>(e: Seq<(Seq<char>, V)>, k: Seq<char>) -> Option<V>
    decreases e.len(),
{
    if e.len() == 0 {
        None
    } else if e.last().0 == k {
        Some(e.last().1)
    } else {
        lookup(e.drop_last(), k)
    }
}

/// The table with `k` bound to `v`: an existing entry for `k` is replaced where it
/// stands, a new key goes at the end (`HashMap::insert`).
pub open spec fn assoc_insert<V>(e: Seq<(Seq<char>, V)>, k: Seq<char>, v: V) -> Seq<(Seq<char>, V)> {
    if has_key(e, k) {
        let i = choose|i: int| 0 <= i < e.len() && e[i].0 == k;
        e.update(i, (k, v))
    } else {
        e.push((k, v))
    }
}

/// The table with `k` bound to `v` only if `k` has no entry yet
/// (`entry(k).or_insert(v)`).
pub open spec fn assoc_insert_absent<V>(e: Seq<(Seq<char>, V)>, k: Seq<char>, v: V) -> Seq<
    (Seq<char>, V),
> {
    if has_key(e, k) {
        e
    } else {
        e.push((k, v))
    }
}

/// `lookup` finds exactly the keys of the table, and in a table without repeated
/// keys it finds the value of the one entry with that key.
pub proof fn lemma_lookup<V>(e: Seq<(Seq<char>, V)>, k: Seq<char>)
    ensures
        lookup(e, k) is Some <==> has_key(e, k),
        unique_keys(e) ==> forall|i: int|
            0 <= i < e.len() && e[i].0 == k ==> lookup(e, k) == Some(e[i].1),
    decreases e.len(),
{
    if e.len() > 0 {
        let d = e.drop_last();
        lemma_lookup(d, k);
        if has_key(e, k) && e.last().0 != k {
            let i = choose|i: int| 0 <= i < e.len() && e[i].0 == k;
            assert(d[i].0 == k);
        }
        if has_key(d, k) {
            let i = choose|i: int| 0 <= i < d.len() && d[i].0 == k;
            assert(e[i].0 == k);
        }
        if unique_keys(e) {
            assert(unique_keys(d));
        }
    }
}

/// A read gives back the last write: after `k` is bound to `v`, `k` maps to `v`
/// and every other key maps to what it mapped to before; keys stay unique.
pub proof fn law_read_after_write<V>(e: Seq<(Seq<char>, V)>, k: Seq<char>, v: V)
    requires
        unique_keys(e),
    ensures
        unique_keys(assoc_insert(e, k, v)),
        lookup(assoc_insert(e, k, v), k) == Some(v),
        forall|k2: Seq<char>| k2 != k ==> lookup(assoc_insert(e, k, v), k2) == lookup(e, k2),
        assoc_insert(e, k, v).len() == e.len() + (if has_key(e, k) {
            0int
        } else {
            1int
        }),
{
    let r = assoc_insert(e, k, v);
    assert(unique_keys(r));
    lemma_lookup(r, k);
    if has_key(e, k) {
        let i = choose|i: int| 0 <= i < e.len() && e[i].0 == k;
        assert(r[i].0 == k);
    } else {
        assert(r[e.len() as int].0 == k);
    }
    assert forall|k2: Seq<char>| k2 != k implies lookup(r, k2) == lookup(e, k2) by {
        lemma_lookup(r, k2);
        lemma_lookup(e, k2);
        if has_key(e, k2) {
            let j = choose|j: int| 0 <= j < e.len() && e[j].0 == k2;
            assert(r[j] == e[j]);
        }
        if has_key(r, k2) {
            let j = choose|j: int| 0 <= j < r.len() && r[j].0 == k2;
            assert(j < e.len() && e[j] == r[j]);
        }
    }
}

/// Inserting an absent key keeps keys unique; a present key keeps its value,
/// an absent one gets `v`, and other keys are unchanged.
pub proof fn lemma_assoc_insert_absent<V>(e: Seq<(Seq<char>, V)>, k: Seq<char>, v: V)
    requires
        unique_keys(e),
    ensures
        unique_keys(assoc_insert_absent(e, k, v)),
        lookup(assoc_insert_absent(e, k, v), k) == (match lookup(e, k) {
            Some(old) => Some(old),
            None => Some(v),
        }),
        forall|k2: Seq<char>| k2 != k ==> lookup(assoc_insert_absent(e, k, v), k2) == lookup(e, k2),
{
    let r = assoc_insert_absent(e, k, v);
    lemma_lookup(e, k);
    if !has_key(e, k) {
        assert(unique_keys(r));
        lemma_lookup(r, k);
        assert(r[e.len() as int].0 == k);
        assert forall|k2: Seq<char>| k2 != k implies lookup(r, k2) == lookup(e, k2) by {
            assert(r.drop_last() =~= e);
        }
    }
}

// ---------------------------------------------------------------------------
// The executable table
// ---------------------------------------------------------------------------

/// Values that can be copied with their view kept.
pub trait Duplicate: View + Sized {
    fn duplicate(&self) -> (r: Self)
        ensures
            r@ == self@,
    ;
}

/// `a` with every key of `b` that `a` lacks added, in `b`'s order: the keys of
/// `a` keep their values.
pub open spec fn merge_absent<V>(a: Seq<(Seq<char>, V)>, b: Seq<(Seq<char>, V)>) -> Seq<(Seq<char>, V)>
    decreases b.len(),
{
    if b.len() == 0 {
        a
    } else {
        assoc_insert_absent(merge_absent(a, b.drop_last()), b.last().0, b.last().1)
    }
}

/// An included file never overrides the file that includes it: after merging
/// the included table `b` into `a`, a key of `a` keeps its value and any other
/// key has its value from `b`. The merged table has each key once.
pub proof fn law_include_precedence<V>(a: Seq<(Seq<char>, V)>, b: Seq<(Seq<char>, V)>, k: Seq<char>)
    requires
        unique_keys(a),
        unique_keys(b),
    ensures
        unique_keys(merge_absent(a, b)),
        lookup(merge_absent(a, b), k) == (match lookup(a, k) {
            Some(v) => Some(v),
            None => lookup(b, k),
        }),
    decreases b.len(),
{
    if b.len() > 0 {
        let d = b.drop_last();
        assert(unique_keys(d));
        law_include_precedence(a, d, k);
        let m = merge_absent(a, d);
        lemma_assoc_insert_absent(m, b.last().0, b.last().1);
        if k == b.last().0 {
            lemma_lookup(d, k);
            if has_key(d, k) {
                let i = choose|i: int| 0 <= i < d.len() && d[i].0 == k;
                assert(b[i].0 == b[b.len() - 1].0);
            }
        }
    }
}

/// `a` merged with each table of `bs` in turn: an entry of an earlier table is
/// never overridden by a later one.
pub open spec fn merge_all<V>(a: Seq<(Seq<char>, V)>, bs: Seq<Seq<(Seq<char>, V)>>) -> Seq<(Seq<char>, V)>
    decreases bs.len(),
{
    if bs.len() == 0 {
        a
    } else {
        merge_absent(merge_all(a, bs.drop_last()), bs.last())
    }
}

/// The value of `k` in the first table of `bs`, in list order, that has it.
pub open spec fn first_binding<V>(bs: Seq<Seq<(Seq<char>, V)>>, k: Seq<char>) -> Option<V>
    decreases bs.len(),
{
    if bs.len() == 0 {
        None
    } else {
        match first_binding(bs.drop_last(), k) {
            Some(v) => Some(v),
            None => lookup(bs.last(), k),
        }
    }
}

/// A file wins over all the files it includes, and an earlier include over a
/// later one: after merging the included tables `bs` in list order into `a`, a
/// key of `a` keeps its value, and any other key has the value of the first
/// included table that has it (none if none has it). The result has each key
/// once.
pub proof fn law_includes_in_order<V>(a: Seq<(Seq<char>, V)>, bs: Seq<Seq<(Seq<char>, V)>>, k: Seq<char>)
    requires
        unique_keys(a),
        forall|i: int| 0 <= i < bs.len() ==> unique_keys(#[trigger] bs[i]),
    ensures
        unique_keys(merge_all(a, bs)),
        lookup(merge_all(a, bs), k) == (match lookup(a, k) {
            Some(v) => Some(v),
            None => first_binding(bs, k),
        }),
    decreases bs.len(),
{
    if bs.len() > 0 {
        let d = bs.drop_last();
        assert forall|i: int| 0 <= i < d.len() implies unique_keys(#[trigger] d[i]) by {
            assert(d[i] == bs[i]);
        }
        law_includes_in_order(a, d, k);
        assert(unique_keys(bs[bs.len() - 1]));
        law_include_precedence(merge_all(a, d), bs.last(), k);
    }
}

/// A table from texts to values: each key once, in the order in which the keys
/// were first inserted.
pub struct Table<V: View> {
    entries: Vec<(String, V)>,
}

/// The keys and values of a list of entries, as texts and views.
pub open spec fn entries_view<V: View>(v: Seq<(String, V)>) -> Seq<(Seq<char>, V::V)> {
    Seq::new(v.len(), |i: int| (v[i].0@, v[i].1@))
}

impl<V: View> View for Table<V> {
    type V = Seq<(Seq<char>, V::V)>;

    closed spec fn view(&self) -> Seq<(Seq<char>, V::V)> {
        entries_view(self.entries@)
    }
}

impl<V: View> Table<V> {
    #[verifier::type_invariant]
    closed spec fn keys_unique(self) -> bool {
        unique_keys(self@)
    }

    /// No key occurs twice.
    pub fn keys_unique_proof(&self)
        ensures
            unique_keys(self@),
    {
        proof {
            use_type_invariant(self);
        }
    }

    /// An empty table.
    pub fn new() -> (r: Table<V>)
        ensures
            r@ == Seq::<(Seq<char>, V::V)>::empty(),
    {
        let r = Table { entries: Vec::new() };
        assert(r@ =~= Seq::<(Seq<char>, V::V)>::empty());
        r
    }

    /// The number of keys.
    pub fn len(&self) -> (n: usize)
        ensures
            n == self@.len(),
    {
        self.entries.len()
    }

    fn find(&self, key: &str) -> (r: Option<usize>)
        ensures
            match r {
                Some(i) => i < self@.len() && self@[i as int].0 == key@,
                None => !has_key(self@, key@),
            },
    {
        let mut i: usize = 0;
        while i < self.entries.len()
            invariant
                i <= self@.len(),
                self@.len() == self.entries@.len(),
                forall|j: int| 0 <= j < i ==> self@[j].0 != key@,
            decreases self.entries.len() - i,
        {
            if str_eq(self.entries[i].0.as_str(), key) {
                return Some(i);
            }
            i = i + 1;
        }
        None
    }

    /// Whether `key` has an entry.
    pub fn contains_key(&self, key: &str) -> (r: bool)
        ensures
            r == has_key(self@, key@),
    {
        self.find(key).is_some()
    }

    /// The value stored under `key`.
    pub fn get(&self, key: &str) -> (r: Option<&V>)
        ensures
            match r {
                Some(v) => lookup(self@, key@) == Some(v@),
                None => lookup(self@, key@) is None,
            },
    {
        proof {
            use_type_invariant(self);
            lemma_lookup(self@, key@);
        }
        match self.find(key) {
            Some(i) => Some(&self.entries[i].1),
            None => None,
        }
    }

    /// The key of entry `i`.
    pub fn key_at(&self, i: usize) -> (r: &String)
        requires
            i < self@.len(),
        ensures
            r@ == self@[i as int].0,
    {
        &self.entries[i].0
    }

    /// The value of entry `i`.
    pub fn value_at(&self, i: usize) -> (r: &V)
        requires
            i < self@.len(),
        ensures
            r@ == self@[i as int].1,
    {
        &self.entries[i].1
    }

    /// Binds `key` to `value`, replacing an earlier value where it stands.
    pub fn insert(&mut self, key: String, value: V)
        ensures
            final(self)@ == assoc_insert(old(self)@, key@, value@),
    {
        proof {
            use_type_invariant(&*self);
        }
        let ghost e = self@;
        let ghost k = key@;
        let ghost vv = value@;
        match self.find(key.as_str()) {
            Some(i) => {
                assert(forall|j: int| 0 <= j < e.len() && e[j].0 == k ==> j == i);
                let mut entries: Vec<(String, V)> = Vec::new();
                std::mem::swap(&mut entries, &mut self.entries);
                entries.set(i, (key, value));
                assert(entries_view(entries@) =~= assoc_insert(e, k, vv));
                proof {
                    law_read_after_write(e, k, vv);
                }
                self.entries = entries;
            },
            None => {
                let mut entries: Vec<(String, V)> = Vec::new();
                std::mem::swap(&mut entries, &mut self.entries);
                entries.push((key, value));
                assert(entries_view(entries@) =~= assoc_insert(e, k, vv));
                proof {
                    law_read_after_write(e, k, vv);
                }
                self.entries = entries;
            },
        }
    }

    /// Binds `key` to `value` unless `key` has an entry already.
    pub fn insert_if_absent(&mut self, key: String, value: V)
        ensures
            final(self)@ == assoc_insert_absent(old(self)@, key@, value@),
    {
        proof {
            use_type_invariant(&*self);
        }
        let ghost e = self@;
        if self.find(key.as_str()).is_none() {
            let ghost k = key@;
            let ghost vv = value@;
            let mut entries: Vec<(String, V)> = Vec::new();
            std::mem::swap(&mut entries, &mut self.entries);
            entries.push((key, value));
            assert(entries_view(entries@) =~= assoc_insert_absent(e, k, vv));
            proof {
                lemma_assoc_insert_absent(e, k, vv);
            }
            self.entries = entries;
        }
    }
}

/// The contents of a list of tables.
pub open spec fn tables_view<V: View>(ts: Seq<Table<V>>) -> Seq<Seq<(Seq<char>, V::V)>> {
    Seq::new(ts.len(), |i: int| ts[i]@)
}

impl<V: Duplicate> Table<V> {
    /// Adds the entries of each of `others`, in list order, whose keys this
    /// table lacks by then: a key keeps its value if this table has it, else it
    /// takes the value of the first of `others` that has it.
    pub fn merge_each(&mut self, others: &Vec<Table<V>>)
        ensures
            final(self)@ == merge_all(old(self)@, tables_view(others@)),
            forall|k: Seq<char>|
                lookup(#[trigger] final(self)@, k) == (match lookup(old(self)@, k) {
                    Some(v) => Some(v),
                    None => first_binding(tables_view(others@), k),
                }),
    {
        let ghost a = self@;
        let ghost bs = tables_view(others@);
        self.keys_unique_proof();
        let mut i: usize = 0;
        assert(bs.subrange(0, 0) =~= Seq::<Seq<(Seq<char>, V::V)>>::empty());
        while i < others.len()
            invariant
                i <= others@.len(),
                bs == tables_view(others@),
                unique_keys(a),
                self@ == merge_all(a, bs.subrange(0, i as int)),
                forall|j: int| 0 <= j < i ==> unique_keys(#[trigger] bs[j]),
            decreases others@.len() - i,
        {
            others[i].keys_unique_proof();
            assert(bs[i as int] == others@[i as int]@);
            self.merge(&others[i]);
            assert(bs.subrange(0, i + 1).drop_last() =~= bs.subrange(0, i as int));
            assert(bs.subrange(0, i + 1).last() == bs[i as int]);
            i = i + 1;
        }
        assert(bs.subrange(0, bs.len() as int) =~= bs);
        assert forall|k: Seq<char>|
            lookup(#[trigger] self@, k) == (match lookup(a, k) {
                Some(v) => Some(v),
                None => first_binding(bs, k),
            }) by {
            law_includes_in_order(a, bs, k);
        }
    }

    /// Adds the entries of `other` whose keys this table lacks; the entries that
    /// this table has keep their values.
    pub fn merge(&mut self, other: &Table<V>)
        ensures
            final(self)@ == merge_absent(old(self)@, other@),
    {
        let mut i: usize = 0;
        let ghost a = self@;
        while i < other.len()
            invariant
                i <= other@.len(),
                self@ == merge_absent(a, other@.subrange(0, i as int)),
            decreases other@.len() - i,
        {
            let k = copy_string(other.key_at(i));
            let v = other.value_at(i).duplicate();
            self.insert_if_absent(k, v);
            assert(other@.subrange(0, i + 1).drop_last() =~= other@.subrange(0, i as int));
            i = i + 1;
        }
        assert(other@.subrange(0, other@.len() as int) =~= other@);
    }
}

} // verus!
