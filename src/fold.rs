use vstd::prelude::*;

verus! {

/// `m` after inserting the pairs of `ps` from first to last.
pub open spec fn insert_all<K, V>(m: Map<K, V>, ps: Seq<(K, V)>) -> Map<K, V>
    decreases ps.len(),
{
    if ps.len() == 0 {
        m
    } else {
        insert_all(m.insert(ps[0].0, ps[0].1), ps.drop_first())
    }
}

/// `m` after removing the keys of `ks`.
pub open spec fn remove_all<K, V>(m: Map<K, V>, ks: Seq<K>) -> Map<K, V>
    decreases ks.len(),
{
    if ks.len() == 0 {
        m
    } else {
        remove_all(m.remove(ks[0]), ks.drop_first())
    }
}

/// Whether some pair of `ps` has key `k`.
pub open spec fn has_key<K, V>(ps: Seq<(K, V)>, k: K) -> bool {
    exists|i: int| 0 <= i < ps.len() && ps[i].0 == k
}

/// Whether `a` and `b` hold the same value at `k`, or neither holds `k`.
pub open spec fn agree_at<K, V>(a: Map<K, V>, b: Map<K, V>, k: K) -> bool {
    &&& a.contains_key(k) == b.contains_key(k)
    &&& a.contains_key(k) ==> a[k] == b[k]
}

/// Inserting `a + b` is inserting `a`, then `b`.
pub proof fn lemma_insert_all_concat<K, V>(m: Map<K, V>, a: Seq<(K, V)>, b: Seq<(K, V)>)
    ensures
        insert_all(m, a + b) == insert_all(insert_all(m, a), b),
    decreases a.len(),
{
    if a.len() == 0 {
        assert(a + b =~= b);
    } else {
        assert((a + b).drop_first() =~= a.drop_first() + b);
        lemma_insert_all_concat(m.insert(a[0].0, a[0].1), a.drop_first(), b);
    }
}

/// Inserting one more pair is one more `insert`.
pub proof fn lemma_insert_all_push<K, V>(m: Map<K, V>, a: Seq<(K, V)>, p: (K, V))
    ensures
        insert_all(m, a.push(p)) == insert_all(m, a).insert(p.0, p.1),
{
    assert(a.push(p) =~= a + seq![p]);
    lemma_insert_all_concat(m, a, seq![p]);
    let x = insert_all(m, a);
    assert(seq![p].drop_first() =~= Seq::<(K, V)>::empty());
    assert(insert_all(x, seq![p]) == insert_all(x.insert(p.0, p.1), seq![p].drop_first()));
    assert(insert_all(x.insert(p.0, p.1), Seq::<(K, V)>::empty()) == x.insert(p.0, p.1));
}

/// Keys that `ps` does not name keep their value.
pub proof fn lemma_insert_all_outside<K, V>(m: Map<K, V>, ps: Seq<(K, V)>, k: K)
    requires
        !has_key(ps, k),
    ensures
        agree_at(insert_all(m, ps), m, k),
    decreases ps.len(),
{
    if ps.len() > 0 {
        assert(ps[0].0 != k);
        assert forall|i: int| 0 <= i < ps.drop_first().len() implies ps.drop_first()[i].0 != k by {
            assert(ps.drop_first()[i] == ps[i + 1]);
        }
        lemma_insert_all_outside(m.insert(ps[0].0, ps[0].1), ps.drop_first(), k);
    }
}

/// Two maps that agree wherever `ps` names no key agree everywhere once `ps`
/// is inserted into both.
pub proof fn lemma_insert_all_agree<K, V>(a: Map<K, V>, b: Map<K, V>, ps: Seq<(K, V)>)
    requires
        forall|k: K| !has_key(ps, k) ==> #[trigger] agree_at(a, b, k),
    ensures
        insert_all(a, ps) == insert_all(b, ps),
    decreases ps.len(),
{
    if ps.len() == 0 {
        assert(a =~= b) by {
            assert forall|k: K| #![auto] a.contains_key(k) == b.contains_key(k) by {
                assert(agree_at(a, b, k));
            }
            assert forall|k: K| #![auto] a.contains_key(k) implies a[k] == b[k] by {
                assert(agree_at(a, b, k));
            }
        }
    } else {
        let a2 = a.insert(ps[0].0, ps[0].1);
        let b2 = b.insert(ps[0].0, ps[0].1);
        let rest = ps.drop_first();
        assert forall|k: K| !has_key(rest, k) implies #[trigger] agree_at(a2, b2, k) by {
            if k != ps[0].0 {
                assert forall|i: int| 0 <= i < ps.len() implies ps[i].0 != k by {
                    if i > 0 {
                        assert(rest[i - 1] == ps[i]);
                    }
                }
                assert(agree_at(a, b, k));
            }
        }
        lemma_insert_all_agree(a2, b2, rest);
    }
}

/// Inserting the same pairs twice gives what inserting them once gives.
pub proof fn lemma_insert_all_twice<K, V>(m: Map<K, V>, ps: Seq<(K, V)>)
    ensures
        insert_all(insert_all(m, ps), ps) == insert_all(m, ps),
{
    assert forall|k: K| !has_key(ps, k) implies #[trigger] agree_at(insert_all(m, ps), m, k) by {
        lemma_insert_all_outside(m, ps, k);
    }
    lemma_insert_all_agree(insert_all(m, ps), m, ps);
}

/// Where the keys of `ps` are distinct, each key ends up with its own value.
pub proof fn lemma_insert_all_distinct<K, V>(m: Map<K, V>, ps: Seq<(K, V)>, i: int)
    requires
        0 <= i < ps.len(),
        forall|a: int, b: int| 0 <= a < b < ps.len() ==> ps[a].0 != ps[b].0,
    ensures
        insert_all(m, ps).contains_key(ps[i].0),
        insert_all(m, ps)[ps[i].0] == ps[i].1,
    decreases ps.len(),
{
    let rest = ps.drop_first();
    let m2 = m.insert(ps[0].0, ps[0].1);
    if i == 0 {
        assert forall|j: int| 0 <= j < rest.len() implies rest[j].0 != ps[0].0 by {
            assert(rest[j] == ps[j + 1]);
        }
        lemma_insert_all_outside(m2, rest, ps[0].0);
    } else {
        assert forall|a: int, b: int| 0 <= a < b < rest.len() implies rest[a].0 != rest[b].0 by {
            assert(rest[a] == ps[a + 1]);
            assert(rest[b] == ps[b + 1]);
        }
        assert(rest[i - 1] == ps[i]);
        lemma_insert_all_distinct(m2, rest, i - 1);
    }
}

/// A key that `ps` names is present after the insertion.
pub proof fn lemma_insert_all_has<K, V>(m: Map<K, V>, ps: Seq<(K, V)>, k: K)
    requires
        has_key(ps, k),
    ensures
        insert_all(m, ps).contains_key(k),
    decreases ps.len(),
{
    let rest = ps.drop_first();
    let m2 = m.insert(ps[0].0, ps[0].1);
    if has_key(rest, k) {
        lemma_insert_all_has(m2, rest, k);
    } else {
        let i = choose|i: int| 0 <= i < ps.len() && ps[i].0 == k;
        if i > 0 {
            assert(rest[i - 1] == ps[i]);
        }
        lemma_insert_all_outside(m2, rest, k);
    }
}

/// Removing keys leaves every other key as it was, and each removed key absent.
pub proof fn lemma_remove_all<K, V>(m: Map<K, V>, ks: Seq<K>, k: K)
    ensures
        ks.contains(k) ==> !remove_all(m, ks).contains_key(k),
        !ks.contains(k) ==> agree_at(remove_all(m, ks), m, k),
    decreases ks.len(),
{
    if ks.len() > 0 {
        let rest = ks.drop_first();
        lemma_remove_all(m.remove(ks[0]), rest, k);
        if ks.contains(k) && k != ks[0] {
            let i = choose|i: int| 0 <= i < ks.len() && ks[i] == k;
            assert(rest[i - 1] == k);
        }
        if !ks.contains(k) {
            assert forall|i: int| 0 <= i < rest.len() implies rest[i] != k by {
                assert(rest[i] == ks[i + 1]);
            }
            assert(ks[0] != k) by {
                assert(ks[0] == ks[0]);
            }
        }
        if rest.contains(k) {
            let j = choose|j: int| 0 <= j < rest.len() && rest[j] == k;
            assert(ks[j + 1] == k);
        }
    }
}

/// Removing one more key is one more `remove`.
pub proof fn lemma_remove_all_push<K, V>(m: Map<K, V>, ks: Seq<K>, k: K)
    ensures
        remove_all(m, ks.push(k)) == remove_all(m, ks).remove(k),
{
    let l = remove_all(m, ks.push(k));
    let r = remove_all(m, ks).remove(k);
    assert forall|x: K| #[trigger] agree_at(l, r, x) by {
        lemma_remove_all(m, ks.push(k), x);
        lemma_remove_all(m, ks, x);
        if ks.contains(x) {
            let i = choose|i: int| 0 <= i < ks.len() && ks[i] == x;
            assert(ks.push(k)[i] == x);
        }
        if x == k {
            assert(ks.push(k)[ks.len() as int] == x);
        }
        if ks.push(k).contains(x) && x != k {
            let i = choose|i: int| 0 <= i < ks.push(k).len() && ks.push(k)[i] == x;
            assert(ks[i] == x);
        }
    }
    assert forall|x: K| #[trigger] l.contains_key(x) == r.contains_key(x) by {
        assert(agree_at(l, r, x));
    }
    assert forall|x: K| #[trigger] l.contains_key(x) implies l[x] == r[x] by {
        assert(agree_at(l, r, x));
    }
    assert(l =~= r);
}

} // verus!
