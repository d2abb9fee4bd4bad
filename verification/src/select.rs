//! Lists of the indices at which a condition holds.

use vstd::prelude::*;

verus! {

/// The indices below `n` at which `flags` is set, in increasing order.
pub open spec fn selected(flags: Seq<bool>, n: int) -> Seq<usize>
    decreases n,
{
    if n <= 0 {
        Seq::empty()
    } else if flags[n - 1] {
        selected(flags, n - 1).push((n - 1) as usize)
    } else {
        selected(flags, n - 1)
    }
}

/// Tells whether `i` is among the first `n` entries of `index`.
pub open spec fn listed(index: Seq<usize>, n: int, i: int) -> bool {
    exists|k: int| 0 <= k < n && #[trigger] index[k] == i
}

/// All indices below `n`, in increasing order.
pub open spec fn all_indices(n: int) -> Seq<usize> {
    Seq::new(n as nat, |i: int| i as usize)
}

/// The selected indices are exactly those below `n` at which the flag is
/// set, and they increase.
pub proof fn lemma_selected(flags: Seq<bool>, n: int)
    requires
        0 <= n <= flags.len(),
        n <= usize::MAX,
    ensures
        selected(flags, n).len() <= n,
        forall|k: int|
            0 <= k < selected(flags, n).len() ==> (#[trigger] selected(flags, n)[k]) < n
                && flags[selected(flags, n)[k] as int],
        forall|i: int|
            0 <= i < n && flags[i] ==> #[trigger] listed(
                selected(flags, n),
                selected(flags, n).len() as int,
                i,
            ),
        forall|a: int, b: int|
            0 <= a < b < selected(flags, n).len() ==> (#[trigger] selected(flags, n)[a])
                < #[trigger] selected(flags, n)[b],
    decreases n,
{
    if n > 0 {
        lemma_selected(flags, n - 1);
        let prev = selected(flags, n - 1);
        let cur = selected(flags, n);
        assert forall|i: int| 0 <= i < n && flags[i] implies #[trigger] listed(
            cur,
            cur.len() as int,
            i,
        ) by {
            if i < n - 1 {
                assert(listed(prev, prev.len() as int, i));
                let k = choose|k: int| 0 <= k < prev.len() && #[trigger] prev[k] == i;
                assert(cur[k] == i);
            } else {
                assert(cur[cur.len() - 1] == i);
            }
        }
    }
}

/// An index is listed among the selected ones exactly when it is below `n`
/// and its flag is set.
pub proof fn lemma_selected_listed(flags: Seq<bool>, n: int, i: int)
    requires
        0 <= n <= flags.len(),
        n <= usize::MAX,
    ensures
        listed(selected(flags, n), selected(flags, n).len() as int, i) <==> (0 <= i < n
            && flags[i]),
{
    lemma_selected(flags, n);
    let s = selected(flags, n);
    if listed(s, s.len() as int, i) {
        let k = choose|k: int| 0 <= k < s.len() && #[trigger] s[k] == i;
        assert(s[k] < n && flags[s[k] as int]);
    }
}

/// Every index below `n` is listed among all indices below `n`, and no
/// other.
pub proof fn lemma_all_listed(n: int, i: int)
    requires
        0 <= n <= usize::MAX,
    ensures
        listed(all_indices(n), n, i) <==> 0 <= i < n,
{
    if 0 <= i < n {
        assert(all_indices(n)[i] == i);
    }
}

/// Lists all indices below `n`.
pub fn index_range(n: usize) -> (v: Vec<usize>)
    ensures
        v@ == all_indices(n as int),
{
    let mut v: Vec<usize> = Vec::new();
    let mut i: usize = 0;
    while i < n
        invariant
            i <= n,
            v@.len() == i,
            forall|k: int| 0 <= k < i ==> v@[k] == k,
        decreases n - i,
    {
        v.push(i);
        i += 1;
    }
    assert(v@ =~= all_indices(n as int));
    v
}

} // verus!
