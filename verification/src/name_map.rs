//! A map keyed by names, kept in ascending order of its keys.

use vstd::prelude::*;
use crate::text::chars_of;

verus! {

// ---------------------------------------------------------------------------
// Lexicographic order on names
// ---------------------------------------------------------------------------

/// `a` sorts strictly before `b`, comparing characters by code point and a
/// proper prefix before any extension of it (the order of `str`'s `Ord`).
pub open spec fn lex_less(a: Seq<char>, b: Seq<char>) -> bool
    decreases a.len(),
{
    if a.len() == 0 {
        b.len() > 0
    } else if b.len() == 0 {
        false
    } else if a[0] != b[0] {
        a[0] < b[0]
    } else {
        lex_less(a.drop_first(), b.drop_first())
    }
}

/// No name sorts before itself.
pub proof fn lemma_lex_irreflexive(a: Seq<char>)
    ensures
        !lex_less(a, a),
    decreases a.len(),
{
    if a.len() > 0 {
        lemma_lex_irreflexive(a.drop_first());
    }
}

/// The order is transitive.
pub proof fn lemma_lex_transitive(a: Seq<char>, b: Seq<char>, c: Seq<char>)
    requires
        lex_less(a, b),
        lex_less(b, c),
    ensures
        lex_less(a, c),
    decreases a.len(),
{
    if a.len() > 0 && b.len() > 0 && c.len() > 0 && a[0] == b[0] && b[0] == c[0] {
        lemma_lex_transitive(a.drop_first(), b.drop_first(), c.drop_first());
    }
}

/// Any two different names are ordered one way or the other.
pub proof fn lemma_lex_total(a: Seq<char>, b: Seq<char>)
    requires
        a != b,
    ensures
        lex_less(a, b) || lex_less(b, a),
    decreases a.len(),
{
    if a.len() == 0 && b.len() == 0 {
        assert(a =~= b);
    } else if a.len() > 0 && b.len() > 0 && a[0] == b[0] {
        if a.drop_first() == b.drop_first() {
            assert(a.drop_first().len() == b.drop_first().len());
            assert(a.len() == b.len());
            assert(a =~= b) by {
                assert forall|i: int| 0 <= i < a.len() implies a[i] == b[i] by {
                    if i > 0 {
                        assert(a[i] == a.drop_first()[i - 1]);
                        assert(b[i] == b.drop_first()[i - 1]);
                    }
                }
            }
        } else {
            lemma_lex_total(a.drop_first(), b.drop_first());
        }
    }
}

/// Whether `a` sorts strictly before `b`.
pub fn lex_less_exec(a: &Vec<char>, b: &Vec<char>) -> (r: bool)
    ensures
        r == lex_less(a@, b@),
{
    let mut i: usize = 0;
    proof {
        assert(a@.skip(0) =~= a@);
        assert(b@.skip(0) =~= b@);
    }
    while i < a.len() && i < b.len() && a[i] == b[i]
        invariant
            i <= a@.len(),
            i <= b@.len(),
            lex_less(a@, b@) == lex_less(a@.skip(i as int), b@.skip(i as int)),
        decreases a.len() - i,
    {
        proof {
            let x = a@.skip(i as int);
            let y = b@.skip(i as int);
            assert(x.drop_first() =~= a@.skip(i + 1));
            assert(y.drop_first() =~= b@.skip(i + 1));
        }
        i = i + 1;
    }
    proof {
        let x = a@.skip(i as int);
        let y = b@.skip(i as int);
        if i < a@.len() && i < b@.len() {
            assert(x[0] == a@[i as int]);
            assert(y[0] == b@[i as int]);
        }
    }
    if i == a.len() {
        i < b.len()
    } else if i == b.len() {
        false
    } else {
        a[i] < b[i]
    }
}

// ---------------------------------------------------------------------------
// The map
// ---------------------------------------------------------------------------

/// Entries keyed by name, each name at most once, in ascending order of the
/// names.
pub struct NameMap<V> {
    entries: Vec<(String, V)>,
}

/// The names of `s`, in order.
pub open spec fn entry_names<V>(s: Seq<(String, V)>) -> Seq<Seq<char>> {
    s.map_values(|e: (String, V)| e.0@)
}

/// An index of `s` whose name is `k`, if there is one.
pub open spec fn index_of_name<V>(s: Seq<(String, V)>, k: Seq<char>) -> int {
    choose|i: int| 0 <= i < s.len() && s[i].0@ == k
}

/// The names of `s` ascend strictly.
pub open spec fn names_ascend(s: Seq<Seq<char>>) -> bool {
    forall|i: int, j: int| 0 <= i < j < s.len() ==> lex_less(#[trigger] s[i], #[trigger] s[j])
}

impl<V> NameMap<V> {
    #[verifier::type_invariant]
    spec fn ordered(self) -> bool {
        names_ascend(entry_names(self.entries@))
    }

    /// The names of the map, in ascending order.
    pub closed spec fn names(&self) -> Seq<Seq<char>> {
        entry_names(self.entries@)
    }

    /// An empty map.
    pub fn new() -> (m: Self)
        ensures
            m@ == Map::<Seq<char>, V>::empty(),
            m.names() == Seq::<Seq<char>>::empty(),
    {
        let m = NameMap { entries: Vec::new() };
        assert(m@ =~= Map::<Seq<char>, V>::empty());
        assert(m.names() =~= Seq::<Seq<char>>::empty());
        m
    }

    /// The number of entries.
    pub fn len(&self) -> (n: usize)
        ensures
            n == self@.dom().len(),
            n == self.names().len(),
    {
        proof {
            use_type_invariant(self);
            self.lemma_names_are_domain();
        }
        self.entries.len()
    }

    /// Whether the map has no entry.
    pub fn is_empty(&self) -> (r: bool)
        ensures
            r <==> self@.dom() == Set::<Seq<char>>::empty(),
    {
        proof {
            use_type_invariant(self);
            self.lemma_names_are_domain();
            if self.entries@.len() > 0 {
                assert(self@.dom().contains(self.entries@[0].0@));
            } else {
                assert(self@.dom() =~= Set::<Seq<char>>::empty());
            }
        }
        self.entries.len() == 0
    }

    proof fn lemma_names_are_domain(&self)
        requires
            names_ascend(entry_names(self.entries@)),
        ensures
            self.names().to_set() == self@.dom(),
            self.names().no_duplicates(),
            self.names().len() == self@.dom().len(),
            forall|i: int|
                0 <= i < self.entries@.len() ==> #[trigger] self@[self.entries@[i].0@]
                    == self.entries@[i].1,
    {
        let s = self.names();
        assert forall|i: int, j: int| 0 <= i < s.len() && 0 <= j < s.len() && i != j implies s[i]
            != s[j] by {
            if i < j {
                lemma_lex_irreflexive(s[i]);
            } else {
                lemma_lex_irreflexive(s[j]);
            }
        }
        assert forall|k: Seq<char>| #[trigger] self@.dom().contains(k) == s.to_set().contains(k) by {
            if s.to_set().contains(k) {
                let i = choose|i: int| 0 <= i < s.len() && s[i] == k;
                assert(self.entries@[i].0@ == k);
            }
            if self@.dom().contains(k) {
                let i = choose|i: int| 0 <= i < self.entries@.len() && self.entries@[i].0@ == k;
                assert(s[i] == k);
            }
        }
        assert(s.to_set() =~= self@.dom());
        s.unique_seq_to_set();
        assert forall|i: int| 0 <= i < self.entries@.len() implies #[trigger] self@[self.entries@[i].0@]
            == self.entries@[i].1 by {
            let k = self.entries@[i].0@;
            assert(self@.dom().contains(k));
            let j = index_of_name(self.entries@, k);
            assert(s[i] == k && s[j] == k);
            if i != j {
                assert(s[i] != s[j]);
            }
        }
    }

    /// The first index whose name does not sort before `key`.
    fn position(&self, key: &Vec<char>) -> (r: usize)
        ensures
            r <= self.entries@.len(),
            forall|j: int| 0 <= j < r ==> lex_less(#[trigger] self.entries@[j].0@, key@),
            forall|j: int|
                r <= j < self.entries@.len() ==> !lex_less(#[trigger] self.entries@[j].0@, key@),
            r < self.entries@.len() ==> (self.entries@[r as int].0@ == key@ || lex_less(
                key@,
                self.entries@[r as int].0@,
            )),
            self@.dom().contains(key@) <==> (r < self.entries@.len() && self.entries@[r as int].0@
                == key@),
    {
        proof {
            use_type_invariant(self);
        }
        let ghost s = entry_names(self.entries@);
        let mut i: usize = 0;
        while i < self.entries.len()
            invariant
                i <= self.entries@.len(),
                s == entry_names(self.entries@),
                names_ascend(s),
                forall|j: int| 0 <= j < i ==> lex_less(#[trigger] self.entries@[j].0@, key@),
            ensures
                i <= self.entries@.len(),
                forall|j: int| 0 <= j < i ==> lex_less(#[trigger] self.entries@[j].0@, key@),
                i < self.entries@.len() ==> !lex_less(self.entries@[i as int].0@, key@),
            decreases self.entries.len() - i,
        {
            let name = chars_of(self.entries[i].0.as_str());
            if !lex_less_exec(&name, key) {
                break;
            }
            i = i + 1;
        }
        proof {
            if i < self.entries@.len() {
                let k = self.entries@[i as int].0@;
                if k != key@ {
                    lemma_lex_total(k, key@);
                }
                assert forall|j: int| i <= j < self.entries@.len() implies !lex_less(
                    #[trigger] self.entries@[j].0@,
                    key@,
                ) by {
                    if j > i {
                        assert(lex_less(s[i as int], s[j]));
                        if lex_less(self.entries@[j].0@, key@) {
                            lemma_lex_transitive(k, self.entries@[j].0@, key@);
                        }
                    }
                }
            }
            assert forall|j: int| 0 <= j < self.entries@.len() && self.entries@[j].0@ == key@
                implies j == i by {
                if j < i {
                    lemma_lex_irreflexive(key@);
                } else if j > i {
                    assert(lex_less(s[i as int], s[j]));
                }
            }
            if i < self.entries@.len() && self.entries@[i as int].0@ == key@ {
                assert(self@.dom().contains(key@));
            }
        }
        i
    }

    /// The value stored under `key`, if any.
    pub fn get(&self, key: &str) -> (r: Option<&V>)
        ensures
            self@.dom().contains(key@) ==> r == Some(&self@[key@]),
            !self@.dom().contains(key@) ==> r is None,
    {
        proof {
            use_type_invariant(self);
            self.lemma_names_are_domain();
        }
        let k = chars_of(key);
        let p = self.position(&k);
        if p < self.entries.len() {
            let name = chars_of(self.entries[p].0.as_str());
            if crate::text::seq_eq(&name, &k) {
                return Some(&self.entries[p].1);
            }
        }
        None
    }

    /// Stores `value` under `key`, replacing any earlier value.
    pub fn insert(&mut self, key: String, value: V)
        ensures
            final(self)@ == old(self)@.insert(key@, value),
    {
        proof {
            use_type_invariant(&*self);
            self.lemma_names_are_domain();
        }
        let k = chars_of(key.as_str());
        let p = self.position(&k);
        let ghost old_entries = self.entries@;
        let ghost os = entry_names(old_entries);
        let ghost key_view = key@;
        let found = p < self.entries.len() && {
            let name = chars_of(self.entries[p].0.as_str());
            crate::text::seq_eq(&name, &k)
        };
        let mut entries: Vec<(String, V)> = Vec::new();
        if found {
            proof {
                assert(entry_names(old_entries.update(p as int, (key, value))) =~= os);
            }
            std::mem::swap(&mut entries, &mut self.entries);
            entries.set(p, (key, value));
            self.entries = entries;
        } else {
            proof {
                lemma_insert_keeps_ascending(os, p as int, key_view);
                assert(entry_names(old_entries.insert(p as int, (key, value))) =~= os.insert(
                    p as int,
                    key_view,
                ));
            }
            std::mem::swap(&mut entries, &mut self.entries);
            entries.insert(p, (key, value));
            self.entries = entries;
        }
        proof {
            use_type_invariant(&*self);
            self.lemma_names_are_domain();
            let ns = self.names();
            // Index `j` of the new entries held index `back(j)` before.
            assert forall|j: int|
                0 <= j < self.entries@.len() && j != p implies #[trigger] self.entries@[j]
                == old_entries[if !found && j > p {
                j - 1
            } else {
                j
            }] by {}
            assert(self.entries@[p as int].0@ == key_view);
            assert forall|q: Seq<char>| #[trigger] self@.dom().contains(q) <==> (old(
                self,
            )@.dom().contains(q) || q == key_view) by {
                if old(self)@.dom().contains(q) {
                    let j = choose|j: int| 0 <= j < old_entries.len() && old_entries[j].0@ == q;
                    if !found && j >= p {
                        assert(self.entries@[j + 1].0@ == q);
                    } else {
                        assert(self.entries@[j].0@ == q);
                    }
                }
                if self@.dom().contains(q) && q != key_view {
                    let j = choose|j: int| 0 <= j < self.entries@.len() && self.entries@[j].0@ == q;
                    if !found && j > p {
                        assert(old_entries[j - 1].0@ == q);
                    } else {
                        assert(old_entries[j].0@ == q);
                    }
                }
            }
            assert forall|q: Seq<char>| #[trigger] self@.dom().contains(q) implies self@[q] == old(
                self,
            )@.insert(key_view, value)[q] by {
                let j = choose|j: int| 0 <= j < self.entries@.len() && self.entries@[j].0@ == q;
                assert(self@[self.entries@[j].0@] == self.entries@[j].1);
                if j != p {
                    assert(ns[j] != ns[p as int]);
                    let b = if !found && j > p {
                        j - 1
                    } else {
                        j
                    };
                    assert(old(self)@[old_entries[b].0@] == old_entries[b].1);
                }
            }
            assert(self@ =~= old(self)@.insert(key_view, value));
        }
    }

    /// Removes the entry of `key`, returning its value if there was one.
    pub fn remove(&mut self, key: &str) -> (r: Option<V>)
        ensures
            final(self)@ == old(self)@.remove(key@),
            old(self)@.dom().contains(key@) ==> r == Some(old(self)@[key@]),
            !old(self)@.dom().contains(key@) ==> r is None,
    {
        proof {
            use_type_invariant(&*self);
            self.lemma_names_are_domain();
        }
        let k = chars_of(key);
        let p = self.position(&k);
        let ghost old_entries = self.entries@;
        let ghost os = entry_names(old_entries);
        let found = p < self.entries.len() && {
            let name = chars_of(self.entries[p].0.as_str());
            crate::text::seq_eq(&name, &k)
        };
        if !found {
            proof {
                assert(self@ =~= old(self)@.remove(key@));
            }
            return None;
        }
        proof {
            let ns = entry_names(old_entries.remove(p as int));
            assert(ns =~= os.remove(p as int));
            assert forall|i: int, j: int| 0 <= i < j < ns.len() implies lex_less(
                #[trigger] ns[i],
                #[trigger] ns[j],
            ) by {
                if i >= p {
                    assert(lex_less(os[i + 1], os[j + 1]));
                } else if j >= p {
                    assert(lex_less(os[i], os[j + 1]));
                } else {
                    assert(lex_less(os[i], os[j]));
                }
            }
        }
        let mut entries: Vec<(String, V)> = Vec::new();
        std::mem::swap(&mut entries, &mut self.entries);
        let (_, v) = entries.remove(p);
        self.entries = entries;
        proof {
            use_type_invariant(&*self);
            self.lemma_names_are_domain();
            let ns = entry_names(old_entries);
            assert forall|q: Seq<char>| #[trigger] self@.dom().contains(q) <==> (old(
                self,
            )@.dom().contains(q) && q != key@) by {
                if old(self)@.dom().contains(q) && q != key@ {
                    let j = choose|j: int| 0 <= j < old_entries.len() && old_entries[j].0@ == q;
                    if j > p {
                        assert(self.entries@[j - 1].0@ == q);
                    } else {
                        assert(self.entries@[j].0@ == q);
                    }
                }
                if self@.dom().contains(q) {
                    let j = choose|j: int| 0 <= j < self.entries@.len() && self.entries@[j].0@ == q;
                    let b = if j >= p {
                        j + 1
                    } else {
                        j
                    };
                    assert(old_entries[b].0@ == q);
                    assert(ns[b] != ns[p as int]);
                }
            }
            assert forall|q: Seq<char>| #[trigger] self@.dom().contains(q) implies self@[q] == old(
                self,
            )@[q] by {
                let j = choose|j: int| 0 <= j < self.entries@.len() && self.entries@[j].0@ == q;
                assert(self@[self.entries@[j].0@] == self.entries@[j].1);
                let b = if j >= p {
                    j + 1
                } else {
                    j
                };
                assert(old(self)@[old_entries[b].0@] == old_entries[b].1);
            }
            assert(self@ =~= old(self)@.remove(key@));
            assert(old(self)@[key@] == old_entries[p as int].1);
        }
        Some(v)
    }

    /// The names of the map, in ascending order.
    pub fn keys(&self) -> (r: Vec<String>)
        ensures
            r@.len() == self@.dom().len(),
            forall|i: int, j: int| 0 <= i < j < r@.len() ==> lex_less(#[trigger] r@[i]@, #[trigger] r@[j]@),
            forall|k: Seq<char>| self@.dom().contains(k) <==> exists|i: int| 0 <= i < r@.len() && #[trigger] r@[i]@ == k,
    {
        proof {
            use_type_invariant(self);
            self.lemma_names_are_domain();
        }
        let mut r: Vec<String> = Vec::new();
        let mut i: usize = 0;
        while i < self.entries.len()
            invariant
                i <= self.entries@.len(),
                r@.len() == i,
                forall|j: int| 0 <= j < i ==> #[trigger] r@[j] == self.entries@[j].0,
            decreases self.entries.len() - i,
        {
            r.push(self.entries[i].0.clone());
            i = i + 1;
        }
        proof {
            let s = self.names();
            assert forall|a: int, b: int| 0 <= a < b < r@.len() implies lex_less(#[trigger] r@[a]@, #[trigger] r@[b]@) by {
                assert(lex_less(s[a], s[b]));
            }
            assert forall|k: Seq<char>| self@.dom().contains(k) implies exists|i: int| 0 <= i < r@.len() && #[trigger] r@[i]@ == k by {
                let j = choose|j: int| 0 <= j < self.entries@.len() && self.entries@[j].0@ == k;
                assert(r@[j]@ == k);
            }
            assert forall|k: Seq<char>| (exists|i: int| 0 <= i < r@.len() && #[trigger] r@[i]@ == k) implies self@.dom().contains(k) by {
                let j = choose|j: int| 0 <= j < r@.len() && r@[j]@ == k;
                assert(self.entries@[j].0@ == k);
            }
        }
        r
    }
}

/// Inserting `key` where every earlier name sorts before it and the next
/// name sorts after it keeps the names ascending.
proof fn lemma_insert_keeps_ascending(os: Seq<Seq<char>>, p: int, key: Seq<char>)
    requires
        names_ascend(os),
        0 <= p <= os.len(),
        forall|j: int| 0 <= j < p ==> lex_less(#[trigger] os[j], key),
        p < os.len() ==> lex_less(key, os[p]),
    ensures
        names_ascend(os.insert(p, key)),
{
    let s = os.insert(p, key);
    assert forall|i: int, j: int| 0 <= i < j < s.len() implies lex_less(
        #[trigger] s[i],
        #[trigger] s[j],
    ) by {
        if j < p {
            assert(lex_less(os[i], os[j]));
        } else if j == p {
            assert(lex_less(os[i], key));
        } else {
            assert(s[j] == os[j - 1]);
            if j - 1 > p {
                assert(lex_less(os[p], os[j - 1]));
                lemma_lex_transitive(key, os[p], os[j - 1]);
            }
            if i < p {
                assert(lex_less(os[i], key));
                lemma_lex_transitive(os[i], key, os[j - 1]);
            } else if i > p {
                assert(s[i] == os[i - 1]);
                assert(lex_less(os[i - 1], os[j - 1]));
            }
        }
    }
}

impl<V> View for NameMap<V> {
    type V = Map<Seq<char>, V>;

    closed spec fn view(&self) -> Map<Seq<char>, V> {
        Map::new(
            |k: Seq<char>| exists|i: int| 0 <= i < self.entries@.len() && self.entries@[i].0@ == k,
            |k: Seq<char>| self.entries@[index_of_name(self.entries@, k)].1,
        )
    }
}

} // verus!
