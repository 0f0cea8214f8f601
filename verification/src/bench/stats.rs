//! Order statistics of sizes.
use vstd::prelude::*;

verus! {

/// Whether no number is followed by a smaller one.
pub open spec fn ascending(s: Seq<usize>) -> bool {
    forall|i: int, j: int| 0 <= i <= j < s.len() ==> #[trigger] s[i] <= #[trigger] s[j]
}

/// The place in an ascending row behind everything not larger than `x`.
fn place_for(s: &[usize], x: usize) -> (at: usize)
    requires
        ascending(s@),
    ensures
        at <= s@.len(),
        forall|i: int| 0 <= i < at ==> #[trigger] s@[i] <= x,
        forall|i: int| at <= i < s@.len() ==> #[trigger] s@[i] > x,
{
    let mut at: usize = s.len();
    while at > 0 && s[at - 1] > x
        invariant
            at <= s@.len(),
            forall|i: int| at <= i < s@.len() ==> #[trigger] s@[i] > x,
        decreases at,
    {
        at = at - 1;
    }
    proof {
        assert forall|i: int| 0 <= i < at implies #[trigger] s@[i] <= x by {
            assert(s@[i] <= s@[at - 1]);
        }
    }
    at
}

/// The same numbers in ascending order.
pub fn sorted(v: &[usize]) -> (s: Vec<usize>)
    ensures
        ascending(s@),
        s@.to_multiset() == v@.to_multiset(),
        s@.len() == v@.len(),
{
    let mut s: Vec<usize> = Vec::new();
    let mut i: usize = 0;
    assert(v@.subrange(0, 0) =~= s@);
    while i < v.len()
        invariant
            i <= v@.len(),
            ascending(s@),
            s@.len() == i,
            s@.to_multiset() == v@.subrange(0, i as int).to_multiset(),
        decreases v@.len() - i,
    {
        let at: usize = place_for(s.as_slice(), v[i]);
        let ghost before = s@;
        let ghost seen = v@.subrange(0, i as int);
        s.insert(at, v[i]);
        proof {
            assert(v@.subrange(0, i + 1) =~= seen.push(v@[i as int]));
            broadcast use vstd::seq_lib::group_to_multiset_ensures;

            assert(s@ == before.insert(at as int, v@[i as int]));
            vstd::seq_lib::to_multiset_insert(before, at as int, v@[i as int]);
            vstd::seq_lib::to_multiset_build(seen, v@[i as int]);
            assert(s@.to_multiset() =~= v@.subrange(0, i + 1).to_multiset());
        }
        i = i + 1;
    }
    assert(v@.subrange(0, i as int) =~= v@);
    s
}

/// The upper median: the number in the middle once they are in order.
pub fn usize_median(v: &[usize]) -> (m: usize)
    requires
        v@.len() > 0,
    ensures
        exists|s: Seq<usize>|
            #![trigger ascending(s)]
            ascending(s) && s.to_multiset() == v@.to_multiset() && s.len() == v@.len() && m == s[(
            v@.len() / 2) as int],
{
    let s = sorted(v);
    let middle: usize = s.len() / 2;
    assert(ascending(s@) && s@[middle as int] == s@[(v@.len() / 2) as int]);
    s[middle]
}

/// The median is a number of the row with no more than half of the row below it and fewer
/// than half above it.
pub proof fn law_the_median_is_in_the_middle(v: &[usize], m: usize)
    requires
        v@.len() > 0,
        call_ensures(usize_median, (v,), m),
    ensures
        v@.contains(m),
        exists|s: Seq<usize>|
            {
                &&& #[trigger] s.to_multiset() == v@.to_multiset()
                &&& s.len() == v@.len()
                &&& forall|i: int| 0 <= i < v@.len() / 2 ==> s[i] <= m
                &&& forall|i: int| v@.len() / 2 <= i < v@.len() ==> s[i] >= m
            },
{
    let s = choose|s: Seq<usize>|
        #![trigger ascending(s)]
        ascending(s) && s.to_multiset() == v@.to_multiset() && s.len() == v@.len() && m == s[(
        v@.len() / 2) as int];
    let k = (v@.len() / 2) as int;
    assert forall|i: int| 0 <= i < k implies s[i] <= m by {
        assert(s[i] <= s[k]);
    }
    assert forall|i: int| k <= i < v@.len() implies s[i] >= m by {
        assert(s[k] <= s[i]);
    }
    broadcast use vstd::seq_lib::group_to_multiset_ensures;

    assert(s.to_multiset() == v@.to_multiset());
    assert(s.contains(s[k]));
    assert(s.to_multiset().count(m) > 0);
    assert(v@.contains(m));
}

} // verus!
