//! Searching ascending row-start tables.
use vstd::prelude::*;

verus! {

/// Whether `s` never decreases.
pub open spec fn ascending(s: Seq<usize>) -> bool {
    forall|i: int, j: int| 0 <= i <= j < s.len() ==> s[i] <= s[j]
}

/// How many entries of `s`, from the front, are at most `x`: the index of the first entry
/// greater than `x`, or the length when there is none.
pub open spec fn count_le_prefix(s: Seq<usize>, x: int) -> nat
    decreases s.len(),
{
    if s.len() == 0 {
        0
    } else if s[0] <= x {
        1 + count_le_prefix(s.drop_first(), x)
    } else {
        0
    }
}

pub proof fn lemma_count_le_prefix(s: Seq<usize>, x: int)
    ensures
        count_le_prefix(s, x) <= s.len(),
        forall|i: int| 0 <= i < count_le_prefix(s, x) ==> s[i] <= x,
        count_le_prefix(s, x) < s.len() ==> s[count_le_prefix(s, x) as int] > x,
    decreases s.len(),
{
    if s.len() > 0 && s[0] <= x {
        lemma_count_le_prefix(s.drop_first(), x);
        assert forall|i: int| 0 <= i < count_le_prefix(s, x) implies s[i] <= x by {
            if i > 0 {
                assert(s[i] == s.drop_first()[i - 1]);
            }
        }
    }
}

/// Any index `k` that splits `s` into entries at most `x` and entries above it is the
/// prefix count.
pub proof fn lemma_count_le_prefix_unique(s: Seq<usize>, x: int, k: int)
    requires
        0 <= k <= s.len(),
        forall|i: int| 0 <= i < k ==> s[i] <= x,
        k < s.len() ==> s[k] > x,
    ensures
        count_le_prefix(s, x) == k,
    decreases s.len(),
{
    if s.len() > 0 && k > 0 {
        assert forall|i: int| 0 <= i < k - 1 implies s.drop_first()[i] <= x by {
            assert(s.drop_first()[i] == s[i + 1]);
        }
        if k - 1 < s.drop_first().len() {
            assert(s.drop_first()[k - 1] == s[k]);
        }
        lemma_count_le_prefix_unique(s.drop_first(), x, k - 1);
    }
}

/// The number of leading entries of an ascending table that are at most `x`, found by
/// bisection.
pub fn partition_point_le(s: &Vec<usize>, x: usize) -> (r: usize)
    requires
        ascending(s@),
    ensures
        r == count_le_prefix(s@, x as int),
        r <= s.len(),
{
    let mut lo: usize = 0;
    let mut hi: usize = s.len();
    while lo < hi
        invariant
            0 <= lo <= hi <= s.len(),
            ascending(s@),
            forall|i: int| 0 <= i < lo ==> s@[i] <= x,
            forall|i: int| hi <= i < s.len() ==> s@[i] > x,
        decreases hi - lo,
    {
        let mid = lo + (hi - lo) / 2;
        if s[mid] <= x {
            lo = mid + 1;
        } else {
            hi = mid;
        }
    }
    proof {
        lemma_count_le_prefix_unique(s@, x as int, lo as int);
    }
    lo
}

/// Whether `s` never decreases.
pub fn is_ascending(s: &Vec<usize>) -> (r: bool)
    ensures
        r == ascending(s@),
{
    let mut k: usize = 1;
    if s.len() == 0 {
        return true;
    }
    while k < s.len()
        invariant
            1 <= k <= s.len(),
            forall|a: int, b: int| 0 <= a <= b < k ==> s@[a] <= s@[b],
        decreases s.len() - k,
    {
        if s[k] < s[k - 1] {
            return false;
        }
        assert forall|a: int, b: int| 0 <= a <= b < k + 1 implies s@[a] <= s@[b] by {
            if b == k && a < k {
                assert(s@[a] <= s@[k - 1]);
            }
        }
        k = k + 1;
    }
    true
}

} // verus!
