use vstd::prelude::*;

verus! {

/// Whether entry `a` ranks before entry `b`: a larger key when `descending`,
/// a smaller one otherwise, and on equal keys the lower position.
pub open spec fn ranks_before(keys: Seq<u64>, descending: bool, a: int, b: int) -> bool {
    ||| (descending && keys[a] > keys[b])
    ||| (!descending && keys[a] < keys[b])
    ||| (keys[a] == keys[b] && a < b)
}

/// Whether `r` lists the first `limit` positions of `keys` in rank order.
pub open spec fn is_ranking(keys: Seq<u64>, descending: bool, limit: nat, r: Seq<usize>) -> bool {
    &&& r.len() == if limit < keys.len() {
        limit
    } else {
        keys.len()
    }
    &&& forall|i: int| 0 <= i < r.len() ==> #[trigger] r[i] < keys.len()
    &&& forall|a: int, b: int|
        0 <= a < b < r.len() ==> ranks_before(keys, descending, r[a] as int, r[b] as int)
    &&& forall|j: int, a: int|
        #![trigger r[a], keys[j]]
        0 <= j < keys.len() && !r.contains(j as usize) && 0 <= a < r.len() ==> ranks_before(
            keys,
            descending,
            r[a] as int,
            j,
        )
}

/// Positions of the first `limit` entries of `keys` in rank order: by key,
/// largest first when `descending`, and on equal keys in the order they stand.
pub fn rank_indices(keys: &Vec<u64>, limit: u64, descending: bool) -> (r: Vec<usize>)
    ensures
        is_ranking(keys@, descending, limit as nat, r@),
{
    let n = keys.len();
    let mut taken: Vec<bool> = Vec::new();
    let mut t: usize = 0;
    while t < n
        invariant
            t <= n,
            taken@.len() == t,
            forall|j: int| 0 <= j < t ==> !taken@[j],
        decreases n - t,
    {
        taken.push(false);
        t = t + 1;
    }
    let mut r: Vec<usize> = Vec::new();
    while (r.len() as u64) < limit && r.len() < n
        invariant
            n == keys@.len(),
            taken@.len() == n,
            r@.len() <= n,
            r@.len() <= limit,
            forall|i: int| 0 <= i < r@.len() ==> #[trigger] r@[i] < n,
            forall|j: int| 0 <= j < n ==> (#[trigger] taken@[j] <==> r@.contains(j as usize)),
            forall|a: int, b: int|
                0 <= a < b < r@.len() ==> ranks_before(keys@, descending, r@[a] as int, r@[b] as int),
            forall|j: int, a: int|
                #![trigger r@[a], keys@[j]]
                0 <= j < n && !r@.contains(j as usize) && 0 <= a < r@.len() ==> ranks_before(
                    keys@,
                    descending,
                    r@[a] as int,
                    j,
                ),
        decreases n - r@.len(),
    {
        proof {
            assert forall|a: int, b: int| 0 <= a < b < r@.len() implies r@[a] != r@[b] by {
                assert(ranks_before(keys@, descending, r@[a] as int, r@[b] as int));
            }
            lemma_untaken_exists(taken@, r@, n);
        }
        let mut best: usize = n;
        let mut j: usize = 0;
        while j < n
            invariant
                n == keys@.len(),
                taken@.len() == n,
                j <= n,
                best == n || (best < j && !taken@[best as int]),
                best == n ==> forall|x: int| 0 <= x < j ==> taken@[x],
                best < n ==> forall|x: int|
                    0 <= x < j && !taken@[x] && x != best ==> ranks_before(
                        keys@,
                        descending,
                        best as int,
                        x,
                    ),
            decreases n - j,
        {
            if !taken[j] {
                let better = if best == n {
                    true
                } else if descending {
                    keys[j] > keys[best]
                } else {
                    keys[j] < keys[best]
                };
                if better {
                    best = j;
                }
            }
            j = j + 1;
        }
        assert(best < n);
        let ghost r0 = r@;
        r.push(best);
        taken.set(best, true);
        assert forall|x: int| 0 <= x < n implies (#[trigger] taken@[x] <==> r@.contains(x as usize)) by {
            if r0.contains(x as usize) {
                let i = choose|i: int| 0 <= i < r0.len() && r0[i] == x as usize;
                assert(r@[i] == x as usize);
            }
            if r@.contains(x as usize) && x != best {
                let i = choose|i: int| 0 <= i < r@.len() && r@[i] == x as usize;
                assert(r0[i] == x as usize);
            }
            if x == best {
                assert(r@[r0.len() as int] == best);
            }
        }
        assert forall|y: int, a: int|
            #![trigger r@[a], keys@[y]]
            0 <= y < n && !r@.contains(y as usize) && 0 <= a < r@.len() implies ranks_before(
            keys@,
            descending,
            r@[a] as int,
            y,
        ) by {
            assert(!r0.contains(y as usize)) by {
                if r0.contains(y as usize) {
                    let i = choose|i: int| 0 <= i < r0.len() && r0[i] == y as usize;
                    assert(r@[i] == y as usize);
                }
            }
            if a == r0.len() {
                assert(r@[a] == best);
                assert(y != best) by {
                    assert(r@[r0.len() as int] == best);
                }
                assert(!taken@[y]);
            } else {
                assert(r@[a] == r0[a]);
            }
        }
    }
    r
}

proof fn lemma_untaken_exists(taken: Seq<bool>, r: Seq<usize>, n: usize)
    requires
        taken.len() == n,
        r.len() < n,
        forall|i: int| 0 <= i < r.len() ==> #[trigger] r[i] < n,
        forall|j: int| 0 <= j < n ==> (#[trigger] taken[j] <==> r.contains(j as usize)),
        forall|a: int, b: int| 0 <= a < b < r.len() ==> r[a] != r[b],
    ensures
        exists|j: int| 0 <= j < n && !taken[j],
{
    if forall|j: int| 0 <= j < n ==> taken[j] {
        let s = Set::new(|x: usize| x < n);
        let rs = r.to_set();
        assert forall|x: usize| s.contains(x) implies rs.contains(x) by {
            assert(taken[x as int]);
        }
        vstd::set_lib::lemma_int_range(0, n as int);
        assert(s =~= Set::new(|x: usize| 0 <= x < n));
        r.unique_seq_to_set();
        lemma_usize_range_len(n);
        vstd::set_lib::lemma_len_subset(s, rs);
    }
}

proof fn lemma_usize_range_len(n: usize)
    ensures
        Set::new(|x: usize| x < n).finite(),
        Set::new(|x: usize| x < n).len() == n,
    decreases n,
{
    let s = Set::new(|x: usize| x < n);
    if n == 0 {
        assert(s =~= Set::empty());
    } else {
        lemma_usize_range_len((n - 1) as usize);
        let p = Set::new(|x: usize| x < (n - 1) as usize);
        assert(s =~= p.insert((n - 1) as usize));
    }
}

/// A ranking of all entries names every position.
pub proof fn lemma_ranking_covers(keys: Seq<u64>, descending: bool, r: Seq<usize>, b: int)
    requires
        is_ranking(keys, descending, keys.len(), r),
        0 <= b < keys.len(),
        keys.len() <= usize::MAX,
    ensures
        r.contains(b as usize),
{
    let n = keys.len();
    if !r.contains(b as usize) {
        assert forall|x: int, y: int| 0 <= x < y < r.len() implies r[x] != r[y] by {
            assert(ranks_before(keys, descending, r[x] as int, r[y] as int));
        }
        r.unique_seq_to_set();
        let rs = r.to_set();
        let s = Set::new(|x: usize| x < n).remove(b as usize);
        lemma_usize_range_len(n as usize);
        assert forall|x: usize| rs.contains(x) implies s.contains(x) by {
            let i = choose|i: int| 0 <= i < r.len() && r[i] == x;
            assert(r[i] < n);
        }
        vstd::set_lib::lemma_len_subset(rs, s);
    }
}

} // verus!
