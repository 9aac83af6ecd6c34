//! Ranking markets by rolling volume: the selection behind the
//! top-markets table.

use vstd::prelude::*;

verus! {

/// Market `a` ranks ahead of market `b`: strictly more volume, or the
/// same volume and the later listing position. This is the order a
/// stable ascending sort by volume yields when read backward, which is
/// how the table walks it.
pub open spec fn rank_before(vols: Seq<i64>, a: int, b: int) -> bool {
    vols[a] > vols[b] || (vols[a] == vols[b] && a > b)
}

/// The first `count` market indices in rank order: the listed indices
/// descend by rank, and every listed index ranks ahead of every index
/// left out.
pub fn top_by_volume(volumes: &Vec<i64>, count: usize) -> (r: Vec<usize>)
    ensures
        r@.len() == (if count < volumes@.len() {
            count as int
        } else {
            volumes@.len() as int
        }),
        forall|i: int| 0 <= i < r@.len() ==> #[trigger] r@[i] < volumes@.len(),
        forall|i: int, j: int|
            #![trigger r@[i], r@[j]]
            0 <= i < j < r@.len() ==> rank_before(volumes@, r@[i] as int, r@[j] as int),
        forall|i: int, x: int|
            #![trigger r@[i], r@.contains(x as usize)]
            0 <= i < r@.len() && 0 <= x < volumes@.len() && !r@.contains(x as usize)
                ==> rank_before(volumes@, r@[i] as int, x),
{
    let n = volumes.len();
    let mut idx: Vec<usize> = Vec::new();
    let mut t: usize = 0;
    while t < n
        invariant
            t <= n,
            idx@.len() == t,
            forall|j: int| 0 <= j < t ==> #[trigger] idx@[j] == j,
        decreases n - t,
    {
        idx.push(t);
        t = t + 1;
    }
    proof {
        assert forall|x: int| 0 <= x < n implies idx@.contains(#[trigger] (x as usize)) by {
            assert(idx@[x] == x as usize);
        }
    }
    let mut i: usize = 0;
    while i < n
        invariant
            i <= n,
            n == volumes@.len(),
            idx@.len() == n,
            forall|j: int| 0 <= j < n ==> #[trigger] idx@[j] < n,
            forall|j1: int, j2: int|
                #![trigger idx@[j1], idx@[j2]]
                0 <= j1 < j2 < n ==> idx@[j1] != idx@[j2],
            forall|x: int| 0 <= x < n ==> idx@.contains(#[trigger] (x as usize)),
            forall|j1: int, j2: int|
                #![trigger idx@[j1], idx@[j2]]
                0 <= j1 < j2 < i ==> rank_before(volumes@, idx@[j1] as int, idx@[j2] as int),
            forall|j1: int, j2: int|
                #![trigger idx@[j1], idx@[j2]]
                0 <= j1 < i <= j2 < n ==> rank_before(volumes@, idx@[j1] as int, idx@[j2] as int),
        decreases n - i,
    {
        let mut p: usize = i;
        let mut q: usize = i + 1;
        while q < n
            invariant
                i < n,
                i <= p < q <= n,
                n == volumes@.len(),
                idx@.len() == n,
                forall|j: int| 0 <= j < n ==> #[trigger] idx@[j] < n,
                forall|j1: int, j2: int|
                    #![trigger idx@[j1], idx@[j2]]
                    0 <= j1 < j2 < n ==> idx@[j1] != idx@[j2],
                forall|t2: int|
                    i <= t2 < q && t2 != p ==> rank_before(
                        volumes@,
                        idx@[p as int] as int,
                        #[trigger] idx@[t2] as int,
                    ),
            decreases n - q,
        {
            let iq = idx[q];
            let ip = idx[p];
            let vq = volumes[iq];
            let vp = volumes[ip];
            if vq > vp || (vq == vp && iq > ip) {
                p = q;
            }
            q = q + 1;
        }
        let ghost old_idx = idx@;
        let a = idx[i];
        let b = idx[p];
        idx[i] = b;
        idx[p] = a;
        proof {
            assert forall|x: int| 0 <= x < n implies idx@.contains(#[trigger] (x as usize)) by {
                let j = choose|j: int| 0 <= j < old_idx.len() && old_idx[j] == x as usize;
                if j == i {
                    assert(idx@[p as int] == x as usize);
                } else if j == p {
                    assert(idx@[i as int] == x as usize);
                } else {
                    assert(idx@[j] == x as usize);
                }
            }
        }
        i = i + 1;
    }
    let ghost full = idx@;
    let k = if count < n {
        count
    } else {
        n
    };
    idx.truncate(k);
    proof {
        assert(idx@ =~= full.take(k as int));
        assert forall|i2: int, x: int|
            0 <= i2 < idx@.len() && 0 <= x < volumes@.len() && !idx@.contains(x as usize) implies rank_before(
            volumes@,
            idx@[i2] as int,
            x,
        ) by {
            let j = choose|j: int| 0 <= j < full.len() && full[j] == x as usize;
            if j < k {
                assert(idx@[j] == x as usize);
                assert(idx@.contains(x as usize));
            } else {
                assert(rank_before(volumes@, full[i2] as int, full[j] as int));
            }
        }
    }
    idx
}

} // verus!
