//! Maps keyed by text, kept sorted by key (string order) with no repeated
//! key, so that iteration and serialization are deterministic.

use vstd::prelude::*;
use crate::text::{copy_string, lemma_lex_transitive, lemma_lex_trichotomy, lex_lt, string_less};

verus! {

broadcast use vstd::string::group_string_axioms;

/// Keys strictly increase along the entries.
pub open spec fn keys_sorted<V>(e: Seq<(String, V)>) -> bool {
    forall|i: int, j: int| 0 <= i < j < e.len() ==> lex_lt(#[trigger] e[i].0@, #[trigger] e[j].0@)
}

/// Some entry has key `k`.
pub open spec fn has_key<V>(e: Seq<(String, V)>, k: Seq<char>) -> bool {
    exists|i: int| 0 <= i < e.len() && #[trigger] e[i].0@ == k
}

/// The position of key `k` (meaningful when present).
pub open spec fn key_pos<V>(e: Seq<(String, V)>, k: Seq<char>) -> int {
    choose|i: int| 0 <= i < e.len() && #[trigger] e[i].0@ == k
}

/// In a sorted entry list a key sits at exactly one position.
pub proof fn lemma_key_unique<V>(e: Seq<(String, V)>, i: int, j: int)
    requires
        keys_sorted(e),
        0 <= i < e.len(),
        0 <= j < e.len(),
        e[i].0@ == e[j].0@,
    ensures
        i == j,
{
    if i < j {
        lemma_lex_trichotomy(e[i].0@, e[j].0@);
    } else if j < i {
        lemma_lex_trichotomy(e[j].0@, e[i].0@);
    }
}

/// Where key `k` is, or where it would go.
pub fn locate<V>(e: &Vec<(String, V)>, k: &String) -> (r: (bool, usize))
    requires
        keys_sorted(e@),
    ensures
        r.1 <= e@.len(),
        r.0 ==> r.1 < e@.len() && e@[r.1 as int].0@ == k@,
        !r.0 ==> !has_key(e@, k@),
        !r.0 ==> forall|i: int| 0 <= i < r.1 ==> lex_lt(#[trigger] e@[i].0@, k@),
        !r.0 ==> forall|i: int| r.1 <= i < e@.len() ==> lex_lt(k@, #[trigger] e@[i].0@),
{
    let mut i: usize = 0;
    while i < e.len()
        invariant
            i <= e@.len(),
            keys_sorted(e@),
            forall|j: int| 0 <= j < i ==> lex_lt(#[trigger] e@[j].0@, k@),
        decreases e@.len() - i,
    {
        if !string_less(&e[i].0, k) {
            proof {
                lemma_lex_trichotomy(e@[i as int].0@, k@);
            }
            if string_less(k, &e[i].0) {
                proof {
                    assert forall|j: int| i <= j < e@.len() implies lex_lt(k@, #[trigger] e@[j].0@) by {
                        if j > i {
                            lemma_lex_transitive(k@, e@[i as int].0@, e@[j].0@);
                        }
                    }
                    assert forall|j: int| 0 <= j < e@.len() implies #[trigger] e@[j].0@ != k@ by {
                        if j < i {
                            lemma_lex_trichotomy(e@[j].0@, k@);
                        } else {
                            lemma_lex_trichotomy(k@, e@[j].0@);
                        }
                    }
                }
                return (false, i);
            }
            return (true, i);
        }
        i += 1;
    }
    proof {
        assert forall|j: int| 0 <= j < e@.len() implies #[trigger] e@[j].0@ != k@ by {
            lemma_lex_trichotomy(e@[j].0@, k@);
        }
    }
    (false, i)
}

/// Inserting a new key at its place keeps the keys sorted.
proof fn lemma_insert_sorted<V>(e: Seq<(String, V)>, pos: int, entry: (String, V))
    requires
        keys_sorted(e),
        0 <= pos <= e.len(),
        forall|i: int| 0 <= i < pos ==> lex_lt(#[trigger] e[i].0@, entry.0@),
        forall|i: int| pos <= i < e.len() ==> lex_lt(entry.0@, #[trigger] e[i].0@),
    ensures
        keys_sorted(e.insert(pos, entry)),
{
    let f = e.insert(pos, entry);
    assert forall|i: int, j: int| 0 <= i < j < f.len() implies lex_lt(#[trigger] f[i].0@, #[trigger] f[j].0@) by {
        if j < pos {
            assert(f[i] == e[i] && f[j] == e[j]);
        } else if j == pos {
            assert(f[i] == e[i]);
        } else if i < pos {
            assert(f[i] == e[i] && f[j] == e[j - 1]);
            lemma_lex_transitive(e[i].0@, entry.0@, e[j - 1].0@);
        } else if i == pos {
            assert(f[j] == e[j - 1]);
        } else {
            assert(f[i] == e[i - 1] && f[j] == e[j - 1]);
        }
    }
}

/// Replacing the value at a position keeps keys, positions and order.
pub proof fn lemma_update_value<V>(e: Seq<(String, V)>, i: int, v: V)
    requires
        keys_sorted(e),
        0 <= i < e.len(),
    ensures
        keys_sorted(e.update(i, (e[i].0, v))),
        forall|x: Seq<char>| #[trigger] has_key(e.update(i, (e[i].0, v)), x) == has_key(e, x),
        forall|x: Seq<char>| has_key(e, x) ==> #[trigger] key_pos(e.update(i, (e[i].0, v)), x) == key_pos(e, x),
{
    let f = e.update(i, (e[i].0, v));
    assert forall|a: int, b: int| 0 <= a < b < f.len() implies lex_lt(#[trigger] f[a].0@, #[trigger] f[b].0@) by {
        assert(f[a].0@ == e[a].0@ && f[b].0@ == e[b].0@);
    }
    assert forall|x: Seq<char>| #[trigger] has_key(f, x) == has_key(e, x) by {
        if has_key(e, x) {
            let p = key_pos(e, x);
            assert(f[p].0@ == x);
        }
        if has_key(f, x) {
            let p = key_pos(f, x);
            assert(e[p].0@ == x);
        }
    }
    assert forall|x: Seq<char>| has_key(e, x) implies #[trigger] key_pos(f, x) == key_pos(e, x) by {
        let p = key_pos(e, x);
        assert(f[p].0@ == x);
        lemma_key_unique(f, p, key_pos(f, x));
    }
}

/// Inserting a new key at its place: the new key sits there, other keys
/// keep their entries.
pub proof fn lemma_insert_new<V>(e: Seq<(String, V)>, i: int, entry: (String, V))
    requires
        keys_sorted(e),
        0 <= i <= e.len(),
        forall|j: int| 0 <= j < i ==> lex_lt(#[trigger] e[j].0@, entry.0@),
        forall|j: int| i <= j < e.len() ==> lex_lt(entry.0@, #[trigger] e[j].0@),
    ensures
        keys_sorted(e.insert(i, entry)),
        has_key(e.insert(i, entry), entry.0@),
        key_pos(e.insert(i, entry), entry.0@) == i,
        forall|x: Seq<char>| x != entry.0@ ==> #[trigger] has_key(e.insert(i, entry), x) == has_key(e, x),
        forall|x: Seq<char>| x != entry.0@ && has_key(e, x) ==> #[trigger] e.insert(i, entry)[key_pos(e.insert(i, entry), x)] == e[key_pos(e, x)],
{
    let f = e.insert(i, entry);
    lemma_insert_sorted(e, i, entry);
    assert(f[i] == entry);
    lemma_key_unique(f, i, key_pos(f, entry.0@));
    assert forall|x: Seq<char>| x != entry.0@ implies #[trigger] has_key(f, x) == has_key(e, x) by {
        if has_key(e, x) {
            let p = key_pos(e, x);
            let q = if p < i { p } else { p + 1 };
            assert(f[q] == e[p]);
        }
        if has_key(f, x) {
            let q = key_pos(f, x);
            if q < i {
                assert(e[q] == f[q]);
            } else {
                assert(q != i);
                assert(e[q - 1] == f[q]);
            }
        }
    }
    assert forall|x: Seq<char>| x != entry.0@ && has_key(e, x) implies #[trigger] f[key_pos(f, x)] == e[key_pos(e, x)] by {
        let p = key_pos(e, x);
        let q = if p < i { p } else { p + 1 };
        assert(f[q] == e[p]);
        lemma_key_unique(f, q, key_pos(f, x));
    }
}

/// A count per key; absent keys count zero.
#[derive(Debug)]
pub struct CountMap {
    pub entries: Vec<(String, usize)>,
}

/// The count of key `k`.
pub open spec fn count_of(e: Seq<(String, usize)>, k: Seq<char>) -> nat {
    if has_key(e, k) { e[key_pos(e, k)].1 as nat } else { 0 }
}

/// Sum of all counts.
pub open spec fn total_count(e: Seq<(String, usize)>) -> nat
    decreases e.len(),
{
    if e.len() == 0 { 0 } else { total_count(e.drop_last()) + e.last().1 as nat }
}

impl CountMap {
    /// The map's well-formedness: sorted, distinct keys; no zero count.
    pub open spec fn wf(&self) -> bool {
        &&& keys_sorted(self.entries@)
        &&& forall|i: int| 0 <= i < self.entries@.len() ==> #[trigger] self.entries@[i].1 > 0
    }

    /// The count of a key.
    pub open spec fn count(&self, k: Seq<char>) -> nat {
        count_of(self.entries@, k)
    }

    /// An empty map.
    pub fn new() -> (m: CountMap)
        ensures
            m.wf(),
            m.entries@.len() == 0,
            forall|k: Seq<char>| m.count(k) == 0,
    {
        CountMap { entries: Vec::new() }
    }

    /// The count of a key.
    pub fn get(&self, k: &String) -> (n: usize)
        requires
            self.wf(),
        ensures
            n == self.count(k@),
    {
        let (found, i) = locate(&self.entries, k);
        if found {
            proof {
                let p = key_pos(self.entries@, k@);
                lemma_key_unique(self.entries@, i as int, p);
            }
            self.entries[i].1
        } else {
            0
        }
    }

    /// Adds one to the count of `k`.
    pub fn increment(&mut self, k: &String)
        requires
            old(self).wf(),
            old(self).count(k@) < usize::MAX,
        ensures
            final(self).wf(),
            forall|x: Seq<char>| #[trigger] final(self).count(x) == old(self).count(x) + if x == k@ { 1nat } else { 0nat },
            total_count(final(self).entries@) == total_count(old(self).entries@) + 1,
    {
        let ghost e = self.entries@;
        let (found, i) = locate(&self.entries, k);
        if found {
            let (key, n) = self.entries.remove(i);
            proof {
                lemma_key_unique(e, i as int, key_pos(e, k@));
            }
            self.entries.insert(i, (key, n + 1));
            let ghost f = self.entries@;
            proof {
                assert(f =~= e.update(i as int, (f[i as int].0, (n + 1) as usize)));
                assert(keys_sorted(f)) by {
                    assert forall|a: int, b: int| 0 <= a < b < f.len() implies lex_lt(#[trigger] f[a].0@, #[trigger] f[b].0@) by {
                        assert(f[a].0@ == e[a].0@ && f[b].0@ == e[b].0@);
                    }
                }
                assert forall|x: Seq<char>| #[trigger] count_of(f, x) == count_of(e, x) + if x == k@ { 1nat } else { 0nat } by {
                    if has_key(e, x) {
                        let p = key_pos(e, x);
                        assert(f[p].0@ == x);
                        let q = key_pos(f, x);
                        lemma_key_unique(f, p, q);
                        if x == k@ {
                            lemma_key_unique(e, p, i as int);
                        } else {
                            assert(p != i);
                        }
                    } else {
                        assert forall|j: int| 0 <= j < f.len() implies #[trigger] f[j].0@ != x by {
                            assert(f[j].0@ == e[j].0@);
                        }
                    }
                }
                lemma_total_update(e, i as int, (n + 1) as usize);
            }
        } else {
            let ghost pre = self.entries@;
            let key = copy_string(k);
            self.entries.insert(i, (key, 1));
            let ghost f = self.entries@;
            proof {
                lemma_insert_sorted(e, i as int, (key, 1usize));
                assert forall|x: Seq<char>| #[trigger] count_of(f, x) == count_of(e, x) + if x == k@ { 1nat } else { 0nat } by {
                    if x == k@ {
                        assert(f[i as int].0@ == x);
                        lemma_key_unique(f, i as int, key_pos(f, x));
                    } else if has_key(e, x) {
                        let p = key_pos(e, x);
                        let p2 = if p < i { p } else { p + 1 };
                        assert(f[p2] == e[p]);
                        lemma_key_unique(f, p2, key_pos(f, x));
                    } else {
                        assert forall|j: int| 0 <= j < f.len() implies #[trigger] f[j].0@ != x by {
                            if j < i {
                                assert(f[j] == e[j]);
                            } else if j > i {
                                assert(f[j] == e[j - 1]);
                            }
                        }
                    }
                }
                lemma_total_insert(e, i as int, (key, 1usize));
            }
        }
    }
}

proof fn lemma_total_update(e: Seq<(String, usize)>, i: int, v: usize)
    requires
        0 <= i < e.len(),
    ensures
        total_count(e.update(i, (e[i].0, v))) == total_count(e) - e[i].1 + v,
    decreases e.len(),
{
    let f = e.update(i, (e[i].0, v));
    if i < e.len() - 1 {
        lemma_total_update(e.drop_last(), i, v);
        assert(f.drop_last() =~= e.drop_last().update(i, (e[i].0, v)));
    } else {
        assert(f.drop_last() =~= e.drop_last());
    }
}

proof fn lemma_total_insert(e: Seq<(String, usize)>, i: int, x: (String, usize))
    requires
        0 <= i <= e.len(),
    ensures
        total_count(e.insert(i, x)) == total_count(e) + x.1,
    decreases e.len(),
{
    let f = e.insert(i, x);
    if i < e.len() {
        lemma_total_insert(e.drop_last(), i, x);
        assert(f.drop_last() =~= e.drop_last().insert(i, x));
    } else {
        assert(f.drop_last() =~= e);
    }
}

} // verus!
