use vstd::prelude::*;

verus! {

/// Nondecreasing order over the whole list.
pub open spec fn sorted_spec(s: Seq<i64>) -> bool {
    forall|i: int, j: int| 0 <= i < j < s.len() ==> s[i] <= s[j]
}

/// Adjacent order extends to any pair by transitivity.
proof fn lemma_adjacent_le(s: Seq<i64>, i: int, j: int)
    requires
        forall|k: int| 0 <= k < s.len() - 1 ==> #[trigger] s[k] <= s[k + 1],
        0 <= i <= j < s.len(),
    ensures
        s[i] <= s[j],
    decreases j - i,
{
    if i < j {
        lemma_adjacent_le(s, i, j - 1);
    }
}

/// Whether the values are in nondecreasing order.
pub fn sorted(v: &Vec<i64>) -> (r: bool)
    ensures
        r == sorted_spec(v@),
{
    let mut i: usize = 1;
    while i < v.len()
        invariant
            1 <= i,
            forall|k: int| 0 <= k < i - 1 ==> #[trigger] v@[k] <= v@[k + 1],
        decreases v@.len() - i,
    {
        if v[i - 1] > v[i] {
            assert(!sorted_spec(v@));
            return false;
        }
        i = i + 1;
    }
    proof {
        assert forall|a: int, b: int| 0 <= a < b < v@.len() implies v@[a] <= v@[b] by {
            lemma_adjacent_le(v@, a, b);
        }
    }
    true
}

} // verus!
