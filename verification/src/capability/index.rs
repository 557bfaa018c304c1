//! Lists of slot indices filed under a key: the shape of every write-side
//! index of the capability table.

use vstd::prelude::*;

verus! {

/// `s` without every occurrence of `x`, the rest in order.
pub open spec fn without(s: Seq<u32>, x: u32) -> Seq<u32>
    decreases s.len(),
{
    if s.len() == 0 {
        s
    } else if s.last() == x {
        without(s.drop_last(), x)
    } else {
        without(s.drop_last(), x).push(s.last())
    }
}

/// What `without` keeps: exactly the entries other than `x`.
pub proof fn lemma_without(s: Seq<u32>, x: u32)
    ensures
        without(s, x).len() <= s.len(),
        !without(s, x).contains(x),
        forall|y: u32| y != x ==> (without(s, x).contains(y) <==> s.contains(y)),
        s.no_duplicates() ==> without(s, x).no_duplicates(),
        !s.contains(x) ==> without(s, x) == s,
        s.contains(x) && s.no_duplicates() ==> without(s, x).len() == s.len() - 1,
    decreases s.len(),
{
    if s.len() > 0 {
        let h = s.drop_last();
        let w = without(h, x);
        lemma_without(h, x);
        assert(s == h.push(s.last()));
        assert forall|y: u32| s.contains(y) <==> (h.contains(y) || y == s.last()) by {
            if s.contains(y) {
                let i = choose|i: int| 0 <= i < s.len() && s[i] == y;
                if i < h.len() {
                    assert(h[i] == y);
                }
            }
            if h.contains(y) {
                let i = choose|i: int| 0 <= i < h.len() && h[i] == y;
                assert(s[i] == y);
            }
            if y == s.last() {
                assert(s[s.len() - 1] == y);
            }
        }
        if s.last() != x {
            let r = w.push(s.last());
            assert forall|y: u32| r.contains(y) <==> (w.contains(y) || y == s.last()) by {
                if r.contains(y) {
                    let i = choose|i: int| 0 <= i < r.len() && r[i] == y;
                    if i < w.len() {
                        assert(w[i] == y);
                    }
                }
                if w.contains(y) {
                    let i = choose|i: int| 0 <= i < w.len() && w[i] == y;
                    assert(r[i] == y);
                }
                if y == s.last() {
                    assert(r[r.len() - 1] == y);
                }
            }
            if s.no_duplicates() {
                assert(h.no_duplicates());
                assert(!h.contains(s.last())) by {
                    if h.contains(s.last()) {
                        let i = choose|i: int| 0 <= i < h.len() && h[i] == s.last();
                        assert(s[i] == s[s.len() - 1]);
                    }
                }
                assert(r.no_duplicates());
            }
            if !s.contains(x) {
                assert(w == h);
            }
        } else {
            if s.no_duplicates() {
                assert(h.no_duplicates());
                assert(!h.contains(x)) by {
                    if h.contains(x) {
                        let i = choose|i: int| 0 <= i < h.len() && h[i] == x;
                        assert(s[i] == s[s.len() - 1]);
                    }
                }
            }
        }
    }
}

/// The list filed under `k`; the empty list where nothing is filed.
pub open spec fn list_of<K>(m: Map<K, Seq<u32>>, k: K) -> Seq<u32> {
    if m.contains_key(k) {
        m[k]
    } else {
        Seq::empty()
    }
}

/// `m` with `idx` appended to the list under `k`.
pub open spec fn pushed<K>(m: Map<K, Seq<u32>>, k: K, idx: u32) -> Map<K, Seq<u32>> {
    m.insert(k, list_of(m, k).push(idx))
}

/// `m` with `idx` taken out of the list under `k`; a list that becomes empty
/// leaves the index together with its key.
pub open spec fn removed<K>(m: Map<K, Seq<u32>>, k: K, idx: u32) -> Map<K, Seq<u32>> {
    if !m.contains_key(k) {
        m
    } else if without(m[k], idx).len() == 0 {
        m.remove(k)
    } else {
        m.insert(k, without(m[k], idx))
    }
}

/// Whether every list of the index is non-empty and without repetition.
pub open spec fn tidy<K>(m: Map<K, Seq<u32>>) -> bool {
    forall|k: K| #[trigger] m.contains_key(k) ==> m[k].len() > 0 && m[k].no_duplicates()
}

/// What a sequence contains after a push.
pub proof fn lemma_push_contains(s: Seq<u32>, x: u32)
    ensures
        forall|y: u32| #[trigger] s.push(x).contains(y) <==> (s.contains(y) || y == x),
        s.no_duplicates() && !s.contains(x) ==> s.push(x).no_duplicates(),
{
    let r = s.push(x);
    assert forall|y: u32| #[trigger] r.contains(y) <==> (s.contains(y) || y == x) by {
        if r.contains(y) {
            let i = choose|i: int| 0 <= i < r.len() && r[i] == y;
            if i < s.len() {
                assert(s[i] == y);
            }
        }
        if s.contains(y) {
            let i = choose|i: int| 0 <= i < s.len() && s[i] == y;
            assert(r[i] == y);
        }
        if y == x {
            assert(r[s.len() as int] == y);
        }
    }
    if s.no_duplicates() && !s.contains(x) {
        assert forall|i: int, j: int| 0 <= i < r.len() && 0 <= j < r.len() && i != j implies r[i]
            != r[j] by {
            if i < s.len() {
                assert(s.contains(s[i]));
            }
            if j < s.len() {
                assert(s.contains(s[j]));
            }
        }
    }
}

/// What an index holds after `pushed`.
pub proof fn lemma_pushed<K>(m: Map<K, Seq<u32>>, k: K, idx: u32)
    ensures
        forall|k2: K, y: u32| #[trigger]
            list_of(pushed(m, k, idx), k2).contains(y) <==> (list_of(m, k2).contains(y) || (k2 == k
                && y == idx)),
        forall|k2: K| k2 != k ==> #[trigger] list_of(pushed(m, k, idx), k2) == list_of(m, k2),
        forall|k2: K| #[trigger]
            pushed(m, k, idx).contains_key(k2) <==> (m.contains_key(k2) || k2 == k),
        list_of(pushed(m, k, idx), k) == list_of(m, k).push(idx),
        tidy(m) && !list_of(m, k).contains(idx) ==> tidy(pushed(m, k, idx)),
{
    lemma_push_contains(list_of(m, k), idx);
    let r = pushed(m, k, idx);
    assert forall|k2: K, y: u32| #[trigger]
        list_of(r, k2).contains(y) <==> (list_of(m, k2).contains(y) || (k2 == k && y == idx)) by {
        if k2 == k {
            assert(list_of(r, k2) == list_of(m, k).push(idx));
        } else {
            assert(list_of(r, k2) == list_of(m, k2));
        }
    }
    if tidy(m) && !list_of(m, k).contains(idx) {
        assert forall|k2: K| #[trigger] r.contains_key(k2) implies r[k2].len() > 0
            && r[k2].no_duplicates() by {
            if k2 != k {
                assert(m.contains_key(k2));
            }
        }
    }
}

/// What an index holds after `removed`.
pub proof fn lemma_removed<K>(m: Map<K, Seq<u32>>, k: K, idx: u32)
    ensures
        forall|k2: K, y: u32| #[trigger]
            list_of(removed(m, k, idx), k2).contains(y) <==> (list_of(m, k2).contains(y) && !(k2
                == k && y == idx)),
        forall|k2: K| k2 != k ==> #[trigger] list_of(removed(m, k, idx), k2) == list_of(m, k2),
        forall|k2: K| #[trigger] removed(m, k, idx).contains_key(k2) ==> m.contains_key(k2),
        forall|k2: K|
            k2 != k && m.contains_key(k2) ==> #[trigger] removed(m, k, idx).contains_key(k2),
        list_of(removed(m, k, idx), k) == without(list_of(m, k), idx),
        tidy(m) ==> tidy(removed(m, k, idx)),
{
    let r = removed(m, k, idx);
    lemma_without(list_of(m, k), idx);
    assert(without(Seq::<u32>::empty(), idx) == Seq::<u32>::empty());
    assert(list_of(r, k) == without(list_of(m, k), idx));
    assert forall|k2: K, y: u32| #[trigger]
        list_of(r, k2).contains(y) <==> (list_of(m, k2).contains(y) && !(k2 == k && y == idx)) by {
        if k2 == k {
            assert(list_of(r, k2) == without(list_of(m, k), idx));
        } else {
            assert(list_of(r, k2) == list_of(m, k2));
        }
    }
    if tidy(m) {
        assert forall|k2: K| #[trigger] r.contains_key(k2) implies r[k2].len() > 0
            && r[k2].no_duplicates() by {
            assert(m.contains_key(k2));
        }
    }
}

/// A sequence without repetition whose entries lie below `n` has at most `n` entries.
pub proof fn lemma_bounded_distinct(s: Seq<u32>, n: nat)
    requires
        s.no_duplicates(),
        forall|i: int| 0 <= i < s.len() ==> s[i] < n,
    ensures
        s.len() <= n,
    decreases n,
{
    if n == 0 {
        if s.len() > 0 {
            assert(s[0] < n);
        }
    } else {
        let top = (n - 1) as u32;
        let w = without(s, top);
        lemma_without(s, top);
        assert forall|i: int| 0 <= i < w.len() implies w[i] < (n - 1) as nat by {
            assert(w.contains(w[i]));
            assert(w[i] != top);
            assert(s.contains(w[i]));
            let j = choose|j: int| 0 <= j < s.len() && s[j] == w[i];
            assert(s[j] < n);
        }
        if n - 1 > u32::MAX {
            assert(!s.contains(top) ==> w == s);
        }
        lemma_bounded_distinct(w, (n - 1) as nat);
    }
}

/// The index as a map from keys to sequences.
pub open spec fn lists<K>(m: Map<K, Vec<u32>>) -> Map<K, Seq<u32>> {
    Map::new(|k: K| m.contains_key(k), |k: K| m[k]@)
}

/// A copy of `v` without every occurrence of `x`.
pub fn retain_other(v: &Vec<u32>, x: u32) -> (out: Vec<u32>)
    ensures
        out@ == without(v@, x),
{
    let mut out: Vec<u32> = Vec::new();
    let mut i: usize = 0;
    while i < v.len()
        invariant
            i <= v.len(),
            out@ == without(v@.take(i as int), x),
        decreases v.len() - i,
    {
        proof {
            assert(v@.take(i + 1).drop_last() == v@.take(i as int));
        }
        if v[i] != x {
            out.push(v[i]);
        }
        i = i + 1;
    }
    proof {
        assert(v@.take(v.len() as int) == v@);
    }
    out
}

/// A copy of `v`.
pub fn copy_list(v: &Vec<u32>) -> (out: Vec<u32>)
    ensures
        out@ == v@,
{
    let mut out: Vec<u32> = Vec::new();
    let mut i: usize = 0;
    while i < v.len()
        invariant
            i <= v.len(),
            out@ == v@.take(i as int),
        decreases v.len() - i,
    {
        out.push(v[i]);
        proof {
            assert(v@.take(i + 1) == v@.take(i as int).push(v@[i as int]));
        }
        i = i + 1;
    }
    proof {
        assert(v@.take(v.len() as int) == v@);
    }
    out
}

} // verus!
