use vstd::prelude::*;

verus! {

/// Relies on fastrand::usize: a random number drawn uniformly from the given
/// non-empty range, so the result is below `n`.
#[verifier::external_body]
fn rand_below(n: usize) -> (r: usize)
    requires
        n >= 1,
    ensures
        r < n,
{
    fastrand::usize(0..n)
}

/// Shuffles the entries in place with a random permutation, for fairness: no
/// entry is lost and none is invented, the list just changes order.
pub fn shuffle_entries<A: Copy>(v: &mut Vec<A>)
    ensures
        final(v)@.len() == old(v)@.len(),
        final(v)@.to_multiset() == old(v)@.to_multiset(),
        forall|x: A| final(v)@.contains(x) <==> old(v)@.contains(x),
{
    let n = v.len();
    let mut i: usize = 0;
    while i < n
        invariant
            n == v@.len(),
            i <= n,
            v@.to_multiset() == old(v)@.to_multiset(),
        decreases n - i,
    {
        let j = i + rand_below(n - i);
        let a = v[i];
        let b = v[j];
        let ghost before = v@;
        {
            let p = &mut v[i];
            *p = b;
        }
        {
            let q = &mut v[j];
            *q = a;
        }
        proof {
            broadcast use vstd::seq_lib::to_multiset_update;
            broadcast use vstd::seq_lib::group_to_multiset_ensures;
            broadcast use vstd::multiset::group_multiset_axioms;

            let m = before.to_multiset();
            let s1 = before.update(i as int, b);
            assert(v@ == s1.update(j as int, a));
            assert(s1.to_multiset() == m.insert(b).remove(a));
            assert(s1[j as int] == b);
            assert(v@.to_multiset() == s1.to_multiset().insert(a).remove(b));
            assert(before.contains(a));
            assert(m.count(a) > 0);
            assert(v@.to_multiset() =~= m);
        }
        i = i + 1;
    }
    proof {
        broadcast use vstd::seq_lib::group_to_multiset_ensures;

        assert forall|x: A| v@.contains(x) <==> old(v)@.contains(x) by {
            assert(v@.contains(x) <==> v@.to_multiset().count(x) > 0);
            assert(old(v)@.contains(x) <==> old(v)@.to_multiset().count(x) > 0);
        }
    }
}

} // verus!
