use vstd::prelude::*;

verus! {

/// The mathematical state of the result cache: its entries as (key, value)
/// pairs ordered from most recently used to least recently used.
pub type Entries = Seq<(Seq<char>, Seq<u8>)>;

/// No key occurs twice.
pub open spec fn keys_distinct(es: Entries) -> bool {
    forall|i: int, j: int| 0 <= i < j < es.len() ==> es[i].0 != es[j].0
}

pub open spec fn has_key(es: Entries, k: Seq<char>) -> bool {
    exists|i: int| 0 <= i < es.len() && es[i].0 == k
}

/// The position of `k`, meaningful only when `has_key` holds (and then
/// unique whenever the keys are distinct).
pub open spec fn index_of(es: Entries, k: Seq<char>) -> int {
    choose|i: int| 0 <= i < es.len() && es[i].0 == k
}

/// The value stored under `k`, if any.
pub open spec fn lookup(es: Entries, k: Seq<char>) -> Option<Seq<u8>> {
    if has_key(es, k) {
        Some(es[index_of(es, k)].1)
    } else {
        None
    }
}

/// The state after a lookup of `k`: a hit moves its entry to the
/// most-recently-used position; a miss changes nothing.
pub open spec fn after_get(es: Entries, k: Seq<char>) -> Entries {
    if has_key(es, k) {
        seq![es[index_of(es, k)]] + es.remove(index_of(es, k))
    } else {
        es
    }
}

/// The state after an insertion of `(k, v)` into a cache of capacity `cap`:
/// the new entry becomes most recently used; a key already present is
/// replaced, its old entry leaving; an insertion into a full cache evicts
/// exactly the least-recently-used entry and nothing else.
pub open spec fn after_put(es: Entries, cap: nat, k: Seq<char>, v: Seq<u8>) -> Entries {
    if has_key(es, k) {
        seq![(k, v)] + es.remove(index_of(es, k))
    } else if es.len() < cap {
        seq![(k, v)] + es
    } else {
        seq![(k, v)] + es.drop_last()
    }
}

/// With distinct keys, any position holding `k` is the position `lookup`
/// reads from.
pub proof fn lemma_index_of_unique(es: Entries, k: Seq<char>, i: int)
    requires
        keys_distinct(es),
        0 <= i < es.len(),
        es[i].0 == k,
    ensures
        has_key(es, k),
        index_of(es, k) == i,
        lookup(es, k) == Some(es[i].1),
{
    assert(has_key(es, k));
    let j = index_of(es, k);
    if j < i {
        assert(es[j].0 != es[i].0);
    } else if i < j {
        assert(es[i].0 != es[j].0);
    }
}

/// A lookup neither adds nor drops a key, and never grows the cache.
pub proof fn lemma_get_preserves_wf(es: Entries, k: Seq<char>)
    requires
        keys_distinct(es),
    ensures
        keys_distinct(after_get(es, k)),
        after_get(es, k).len() == es.len(),
{
    if has_key(es, k) {
        let i = index_of(es, k);
        let moved = seq![es[i]] + es.remove(i);
        assert forall|a: int, b: int| 0 <= a < b < moved.len() implies moved[a].0 != moved[b].0 by {
            let a0 = if a == 0 {
                i
            } else if a <= i {
                a - 1
            } else {
                a as int
            };
            let b0 = if b <= i {
                b - 1
            } else {
                b as int
            };
            assert(moved[a] == es[a0]);
            assert(moved[b] == es[b0]);
            assert(a0 != b0);
        }
    }
}

/// An insertion keeps the keys distinct, puts `k` in front, and never pushes
/// the entry count past the capacity.
pub proof fn lemma_put_preserves_wf(es: Entries, cap: nat, k: Seq<char>, v: Seq<u8>)
    requires
        keys_distinct(es),
        es.len() <= cap,
        1 <= cap,
    ensures
        keys_distinct(after_put(es, cap, k, v)),
        after_put(es, cap, k, v).len() <= cap,
        after_put(es, cap, k, v)[0] == (k, v),
{
    lemma_put_distinct(es, cap, k, v);
}

/// Distinctness alone is preserved by an insertion, whatever the capacity.
pub proof fn lemma_put_distinct(es: Entries, cap: nat, k: Seq<char>, v: Seq<u8>)
    requires
        keys_distinct(es),
        es.len() <= cap,
        1 <= cap,
    ensures
        keys_distinct(after_put(es, cap, k, v)),
        after_put(es, cap, k, v)[0] == (k, v),
{
    let es2 = after_put(es, cap, k, v);
    if has_key(es, k) {
        let i = index_of(es, k);
        assert(es[i].0 == k);
        assert forall|a: int, b: int| 0 <= a < b < es2.len() implies es2[a].0 != es2[b].0 by {
            let b0 = if b <= i {
                b - 1
            } else {
                b as int
            };
            assert(es2[b] == es[b0]);
            if a == 0 {
                assert(b0 != i);
                if b0 < i {
                    assert(es[b0].0 != es[i].0);
                } else {
                    assert(es[i].0 != es[b0].0);
                }
            } else {
                let a0 = if a <= i {
                    a - 1
                } else {
                    a as int
                };
                assert(es2[a] == es[a0]);
                assert(a0 != b0);
            }
        }
    } else {
        assert forall|a: int, b: int| 0 <= a < b < es2.len() implies es2[a].0 != es2[b].0 by {
            assert(es2[b] == es[b - 1]);
            if a == 0 {
                assert(!(0 <= b - 1 < es.len() && es[b - 1].0 == k));
            } else {
                assert(es2[a] == es[a - 1]);
            }
        }
    }
}

/// Cache correctness, first half: immediately after `(k, v)` is stored,
/// looking up `k` yields exactly `v`.
pub proof fn lemma_get_after_put(es: Entries, cap: nat, k: Seq<char>, v: Seq<u8>)
    requires
        keys_distinct(es),
        es.len() <= cap,
        1 <= cap,
    ensures
        lookup(after_put(es, cap, k, v), k) == Some(v),
{
    lemma_put_distinct(es, cap, k, v);
    let es2 = after_put(es, cap, k, v);
    lemma_index_of_unique(es2, k, 0);
}

/// Cache correctness, second half: a stored value survives, unchanged, any
/// later lookup and any later insertion under a different key, as long as
/// its own key has not been evicted.
pub proof fn lemma_lookup_stable(es: Entries, cap: nat, k: Seq<char>, k2: Seq<char>, v2: Seq<u8>)
    requires
        keys_distinct(es),
        es.len() <= cap,
        1 <= cap,
        k2 != k,
    ensures
        has_key(after_put(es, cap, k2, v2), k) ==> lookup(after_put(es, cap, k2, v2), k) == lookup(
            es,
            k,
        ),
        lookup(after_get(es, k2), k) == lookup(es, k),
{
    let esp = after_put(es, cap, k2, v2);
    lemma_put_distinct(es, cap, k2, v2);
    if has_key(esp, k) {
        let i = index_of(esp, k);
        assert(esp[i].0 == k);
        assert(i != 0);
        if has_key(es, k2) {
            let j = index_of(es, k2);
            let i0 = if i <= j {
                i - 1
            } else {
                i as int
            };
            assert(esp[i] == es[i0]);
            lemma_index_of_unique(es, k, i0);
            lemma_index_of_unique(esp, k, i);
        } else if es.len() < cap {
            assert(esp[i] == es[i - 1]);
            lemma_index_of_unique(es, k, i - 1);
            lemma_index_of_unique(esp, k, i);
        } else {
            assert(i - 1 < es.drop_last().len());
            assert(esp[i] == es.drop_last()[i - 1]);
            assert(es.drop_last()[i - 1] == es[i - 1]);
            lemma_index_of_unique(es, k, i - 1);
            lemma_index_of_unique(esp, k, i);
        }
    }
    let esg = after_get(es, k2);
    lemma_get_preserves_wf(es, k2);
    if has_key(es, k2) {
        let j = index_of(es, k2);
        assert(es[j].0 == k2);
        if has_key(esg, k) {
            let i = index_of(esg, k);
            assert(esg[i].0 == k);
            assert(i != 0);
            let i0 = if i <= j {
                i - 1
            } else {
                i as int
            };
            assert(esg[i] == es[i0]);
            lemma_index_of_unique(es, k, i0);
            lemma_index_of_unique(esg, k, i);
        }
        if has_key(es, k) {
            let j2 = index_of(es, k);
            assert(es[j2].0 == k);
            assert(j2 != j);
            if j2 < j {
                assert(esg[j2 + 1] == es[j2]);
                assert(has_key(esg, k));
            } else {
                assert(esg[j2] == es[j2]);
                assert(has_key(esg, k));
            }
        }
    }
}

/// Capacity bound, one step: an insertion of a fresh key into a full cache
/// evicts exactly the least-recently-used entry — that key alone becomes
/// absent, every other key stays present, and the entry count stays at the
/// capacity.
pub proof fn lemma_overflow_evicts_lru(es: Entries, cap: nat, k: Seq<char>, v: Seq<u8>)
    requires
        keys_distinct(es),
        es.len() == cap,
        1 <= cap,
        !has_key(es, k),
    ensures
        after_put(es, cap, k, v).len() == cap,
        !has_key(after_put(es, cap, k, v), es.last().0),
        forall|i: int| 0 <= i < es.len() - 1 ==> has_key(after_put(es, cap, k, v), es[i].0),
        has_key(after_put(es, cap, k, v), k),
{
    let es2 = after_put(es, cap, k, v);
    assert(es2 == seq![(k, v)] + es.drop_last());
    let evicted = es.last().0;
    if has_key(es2, evicted) {
        let i = index_of(es2, evicted);
        assert(es2[i].0 == evicted);
        if i == 0 {
            assert(es.last().0 == k);
            assert(has_key(es, k));
        } else {
            assert(es2[i] == es[i - 1]);
            assert(es[i - 1].0 != es[es.len() - 1].0);
        }
    }
    assert forall|i: int| 0 <= i < es.len() - 1 implies has_key(es2, es[i].0) by {
        assert(es2[i + 1] == es[i]);
    }
    assert(es2[0].0 == k);
}

/// Recency: a key refreshed by a lookup survives the next overflow
/// insertion — the eviction falls on the least recently used entry, never
/// on the freshly served one.
pub proof fn lemma_recency_protects(es: Entries, cap: nat, k: Seq<char>, k2: Seq<char>, v2: Seq<u8>)
    requires
        keys_distinct(es),
        es.len() <= cap,
        2 <= cap,
        has_key(es, k),
        k2 != k,
    ensures
        has_key(after_put(after_get(es, k), cap, k2, v2), k),
        lookup(after_put(after_get(es, k), cap, k2, v2), k) == lookup(es, k),
{
    let esg = after_get(es, k);
    lemma_get_preserves_wf(es, k);
    let i = index_of(es, k);
    assert(es[i].0 == k);
    assert(esg[0] == es[i]);
    let esp = after_put(esg, cap, k2, v2);
    if has_key(esg, k2) {
        let j = index_of(esg, k2);
        assert(esg[j].0 == k2);
        assert(j != 0);
        assert(esp[1] == esg[0]);
    } else if esg.len() < cap {
        assert(esp[1] == esg[0]);
    } else {
        assert(esp[1] == esg.drop_last()[0]);
        assert(esg.drop_last()[0] == esg[0]);
    }
    assert(has_key(esp, k)) by {
        assert(esp[1].0 == k);
    }
    lemma_lookup_stable(esg, cap, k, k2, v2);
    assert(lookup(esg, k) == lookup(es, k)) by {
        lemma_index_of_unique(esg, k, 0);
        lemma_index_of_unique(es, k, i);
    }
}

/// The cache state after a whole sequence of insertions, first element
/// inserted first.
pub open spec fn put_all(es: Entries, cap: nat, kvs: Entries) -> Entries
    decreases kvs.len(),
{
    if kvs.len() == 0 {
        es
    } else {
        put_all(after_put(es, cap, kvs[0].0, kvs[0].1), cap, kvs.drop_first())
    }
}

proof fn lemma_put_all_snoc(es: Entries, cap: nat, kvs: Entries, x: (Seq<char>, Seq<u8>))
    ensures
        put_all(es, cap, kvs.push(x)) == after_put(put_all(es, cap, kvs), cap, x.0, x.1),
    decreases kvs.len(),
{
    if kvs.len() == 0 {
        assert(kvs.push(x)[0] == x);
        assert(kvs.push(x).drop_first() =~= Seq::<(Seq<char>, Seq<u8>)>::empty());
        assert(put_all(es, cap, kvs.push(x)) == put_all(
            after_put(es, cap, x.0, x.1),
            cap,
            Seq::<(Seq<char>, Seq<u8>)>::empty(),
        ));
        assert(put_all(es, cap, kvs) == es);
    } else {
        assert(kvs.push(x)[0] == kvs[0]);
        assert(kvs.push(x).drop_first() =~= kvs.drop_first().push(x));
        lemma_put_all_snoc(after_put(es, cap, kvs[0].0, kvs[0].1), cap, kvs.drop_first(), x);
        assert(put_all(es, cap, kvs.push(x)) == put_all(
            after_put(es, cap, kvs[0].0, kvs[0].1),
            cap,
            kvs.drop_first().push(x),
        ));
        assert(put_all(es, cap, kvs) == put_all(
            after_put(es, cap, kvs[0].0, kvs[0].1),
            cap,
            kvs.drop_first(),
        ));
    }
}

/// Filling an empty cache with fresh, pairwise-distinct keys leaves exactly
/// the most recent `cap` of them, most recent first.
proof fn lemma_fill_fresh(cap: nat, kvs: Entries)
    requires
        1 <= cap,
        keys_distinct(kvs),
    ensures
        put_all(Seq::<(Seq<char>, Seq<u8>)>::empty(), cap, kvs) == (if kvs.len() <= cap {
            kvs.reverse()
        } else {
            kvs.skip(kvs.len() - cap).reverse()
        }),
    decreases kvs.len(),
{
    let empty = Seq::<(Seq<char>, Seq<u8>)>::empty();
    if kvs.len() == 0 {
        assert(kvs.reverse() =~= empty);
    } else {
        let n = kvs.len() as int;
        let dl = kvs.drop_last();
        let x = kvs.last();
        assert(keys_distinct(dl)) by {
            assert(forall|i: int| 0 <= i < dl.len() ==> dl[i] == kvs[i]);
        }
        lemma_fill_fresh(cap, dl);
        assert(kvs =~= dl.push(x));
        lemma_put_all_snoc(empty, cap, dl, x);
        let prev = put_all(empty, cap, dl);
        let m: int = if n - 1 <= cap { 0 } else { n - 1 - cap };
        assert(prev == (if n - 1 <= cap {
            dl.reverse()
        } else {
            dl.skip(n - 1 - cap).reverse()
        }));
        assert(prev =~= dl.skip(m).reverse());
        assert(prev.len() == n - 1 - m);
        // every entry of `prev` is an entry of `kvs` short of the last, so
        // the new key is fresh
        assert(forall|i: int|
            0 <= i < prev.len() ==> prev[i] == kvs[m + (prev.len() - 1 - i)]);
        assert(!has_key(prev, x.0)) by {
            if has_key(prev, x.0) {
                let i = choose|i: int| 0 <= i < prev.len() && prev[i].0 == x.0;
                let j = m + (prev.len() - 1 - i);
                assert(kvs[j].0 == x.0);
                assert(0 <= j < n - 1);
                assert(kvs[j].0 != kvs[n - 1].0);
            }
        }
        let r = put_all(empty, cap, kvs);
        assert(r == after_put(prev, cap, x.0, x.1));
        if n - 1 - m < cap {
            assert(r == seq![(x.0, x.1)] + prev);
            assert(n <= cap);
            assert(r =~= kvs.reverse()) by {
                assert(r.len() == n);
                assert(r[0] == x);
                assert(forall|i: int| 1 <= i < n ==> r[i] == prev[i - 1]);
                assert(forall|i: int| 0 <= i < n ==> kvs.reverse()[i] == kvs[n - 1 - i]);
            }
        } else {
            assert(r == seq![(x.0, x.1)] + prev.drop_last());
            assert(n > cap);
            assert(r.len() == cap);
            assert forall|i: int| 0 <= i < cap implies r[i] == kvs.skip(n - cap).reverse()[i] by {
                assert(kvs.skip(n - cap).reverse()[i] == kvs[n - 1 - i]);
                if i == 0 {
                    assert(r[0] == x);
                } else {
                    assert(r[i] == prev.drop_last()[i - 1]);
                    assert(prev.drop_last()[i - 1] == prev[i - 1]);
                    assert(prev[i - 1] == kvs[m + (prev.len() - 1 - (i - 1))]);
                    assert(m + (prev.len() - 1 - (i - 1)) == n - 1 - i);
                }
            }
            assert(r =~= kvs.skip(n - cap).reverse());
        }
    }
}

/// Capacity bound: filling an empty cache of capacity `cap` with `cap + 1`
/// distinct fresh keys, one at a time with no intervening lookups, evicts
/// exactly the first-inserted key — it alone is absent, and the other `cap`
/// keys are all present.
pub proof fn lemma_capacity_bound(cap: nat, kvs: Entries)
    requires
        1 <= cap,
        kvs.len() == cap + 1,
        keys_distinct(kvs),
    ensures
        put_all(Seq::<(Seq<char>, Seq<u8>)>::empty(), cap, kvs).len() == cap,
        !has_key(put_all(Seq::<(Seq<char>, Seq<u8>)>::empty(), cap, kvs), kvs[0].0),
        forall|i: int|
            1 <= i < kvs.len() ==> has_key(
                put_all(Seq::<(Seq<char>, Seq<u8>)>::empty(), cap, kvs),
                kvs[i].0,
            ),
{
    lemma_fill_fresh(cap, kvs);
    let n = kvs.len() as int;
    let r = put_all(Seq::<(Seq<char>, Seq<u8>)>::empty(), cap, kvs);
    assert(r =~= kvs.skip(1).reverse());
    assert(forall|j: int| 0 <= j < cap ==> r[j] == kvs[cap - j]);
    if has_key(r, kvs[0].0) {
        let j = choose|j: int| 0 <= j < r.len() && r[j].0 == kvs[0].0;
        assert(kvs[cap - j].0 == kvs[0].0);
        assert(kvs[0].0 != kvs[cap - j].0);
    }
    assert forall|i: int| 1 <= i < kvs.len() implies has_key(r, kvs[i].0) by {
        assert(r[cap - i] == kvs[i]);
    }
}

} // verus!
