//! The sample partitioner: positions `0, k, 2k, ...` of the source sequence
//! go to the test subset, every other position to the train subset, with
//! relative order preserved. The rule is a pure function of position, so the
//! split is total and deterministic.
use vstd::prelude::*;

verus! {

/// Positions in `[0, n)` that the cadence rule keeps for training: those that
/// are not multiples of `k`, in increasing order.
pub open spec fn strain_idx(n: int, k: int) -> Seq<usize>
    decreases n,
{
    if n <= 0 {
        Seq::empty()
    } else {
        strain_idx(n - 1, k) + if (n - 1) % k != 0 {
            seq![(n - 1) as usize]
        } else {
            Seq::empty()
        }
    }
}

/// Positions in `[0, n)` that the cadence rule holds out for testing: the
/// multiples of `k`, in increasing order.
pub open spec fn stest_idx(n: int, k: int) -> Seq<usize>
    decreases n,
{
    if n <= 0 {
        Seq::empty()
    } else {
        stest_idx(n - 1, k) + if (n - 1) % k == 0 {
            seq![(n - 1) as usize]
        } else {
            Seq::empty()
        }
    }
}

/// Every position in `[0, n)`, in order.
pub open spec fn all_idx(n: int) -> Seq<usize> {
    Seq::new(n as nat, |i: int| i as usize)
}

/// Split the positions `0 .. n` by the cadence rule: multiples of `k` into
/// the second (test) list, the rest into the first (train) list.
pub fn partition_indices(n: usize, k: usize) -> (r: (Vec<usize>, Vec<usize>))
    requires
        1 <= k,
    ensures
        r.0@ == strain_idx(n as int, k as int),
        r.1@ == stest_idx(n as int, k as int),
{
    let mut train: Vec<usize> = Vec::new();
    let mut test: Vec<usize> = Vec::new();
    let mut i: usize = 0;
    while i < n
        invariant
            i <= n,
            1 <= k,
            train@ == strain_idx(i as int, k as int),
            test@ == stest_idx(i as int, k as int),
        decreases n - i,
    {
        if i % k == 0 {
            test.push(i);
            proof {
                assert(stest_idx(i + 1, k as int) =~= stest_idx(i as int, k as int).push(i));
                assert(strain_idx(i + 1, k as int) =~= strain_idx(i as int, k as int));
            }
        } else {
            train.push(i);
            proof {
                assert(strain_idx(i + 1, k as int) =~= strain_idx(i as int, k as int).push(i));
                assert(stest_idx(i + 1, k as int) =~= stest_idx(i as int, k as int));
            }
        }
        i = i + 1;
    }
    (train, test)
}

/// The test subset holds one position out of every `k`, rounded up: exactly
/// `ceil(n / k)` of the `n` positions, and the train subset holds the rest.
pub proof fn lemma_partition_sizes(n: int, k: int)
    requires
        0 <= n,
        1 <= k,
    ensures
        stest_idx(n, k).len() == (n + k - 1) / k,
        strain_idx(n, k).len() == n - (n + k - 1) / k,
    decreases n,
{
    if n == 0 {
        vstd::arithmetic::div_mod::lemma_fundamental_div_mod_converse(k - 1, k, 0, k - 1);
    } else {
        lemma_partition_sizes(n - 1, k);
        let a = n - 1;
        vstd::arithmetic::div_mod::lemma_fundamental_div_mod(a, k);
        let q = a / k;
        let r0 = a % k;
        assert(a == q * k + r0) by (nonlinear_arith)
            requires
                a == k * q + r0,
        ;
        assert(a + k == (q + 1) * k + r0) by (nonlinear_arith)
            requires
                a == q * k + r0,
        ;
        if r0 == 0 {
            assert(a + k - 1 == q * k + (k - 1)) by (nonlinear_arith)
                requires
                    a == q * k,
            ;
            vstd::arithmetic::div_mod::lemma_fundamental_div_mod_converse(a + k - 1, k, q, k - 1);
            vstd::arithmetic::div_mod::lemma_fundamental_div_mod_converse(a + k, k, q + 1, 0);
        } else {
            assert(a + k - 1 == (q + 1) * k + (r0 - 1)) by (nonlinear_arith)
                requires
                    a == q * k + r0,
            ;
            vstd::arithmetic::div_mod::lemma_fundamental_div_mod_converse(a + k - 1, k, q + 1, r0 - 1);
            vstd::arithmetic::div_mod::lemma_fundamental_div_mod_converse(a + k, k, q + 1, r0);
        }
    }
}

/// Together the two subsets cover every position of `[0, n)` exactly once:
/// as multisets, train plus test equal the full position range.
pub proof fn lemma_partition_coverage(n: int, k: int)
    requires
        0 <= n,
        1 <= k,
    ensures
        strain_idx(n, k).to_multiset().add(stest_idx(n, k).to_multiset()) == all_idx(
            n,
        ).to_multiset(),
    decreases n,
{
    broadcast use vstd::seq_lib::group_to_multiset_ensures;

    if n == 0 {
        assert(all_idx(0) =~= Seq::<usize>::empty());
        assert(strain_idx(0, k).to_multiset().add(stest_idx(0, k).to_multiset())
            =~= all_idx(0).to_multiset());
    } else {
        lemma_partition_coverage(n - 1, k);
        let x = (n - 1) as usize;
        assert(all_idx(n) =~= all_idx(n - 1).push(x));
        if (n - 1) % k == 0 {
            assert(stest_idx(n, k) =~= stest_idx(n - 1, k).push(x));
            assert(strain_idx(n, k) =~= strain_idx(n - 1, k));
        } else {
            assert(strain_idx(n, k) =~= strain_idx(n - 1, k).push(x));
            assert(stest_idx(n, k) =~= stest_idx(n - 1, k));
        }
        assert(strain_idx(n, k).to_multiset().add(stest_idx(n, k).to_multiset()) =~= all_idx(
            n,
        ).to_multiset());
    }
}

/// The partition rule is deterministic: the subsets are functions of the
/// source length and the cadence alone, so two runs of the partitioner over
/// the same input agree exactly. The executable partitioner's contract pins
/// its output to these functions, which makes this equality the statement
/// that calling it twice yields identical train and test index lists.
pub proof fn lemma_partition_deterministic(n1: usize, k1: usize, n2: usize, k2: usize)
    requires
        n1 == n2,
        k1 == k2,
    ensures
        strain_idx(n1 as int, k1 as int) == strain_idx(n2 as int, k2 as int),
        stest_idx(n1 as int, k1 as int) == stest_idx(n2 as int, k2 as int),
{
}

} // verus!
