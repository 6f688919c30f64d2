use vstd::prelude::*;

use std::ops::Range;

verus! {

/// The sum of `s[i..j]`, zero for an empty range.
pub open spec fn sum_range(s: Seq<int>, i: int, j: int) -> int
    decreases j - i,
{
    if i < j {
        sum_range(s, i, j - 1) + s[j - 1]
    } else {
        0
    }
}

/// A list of machine integers as mathematical integers.
pub open spec fn vals_of(values: Seq<i64>) -> Seq<int> {
    values.map_values(|x: i64| x as int)
}

/// Whether a mathematical integer fits the machine's signed word.
pub open spec fn fits_i64(x: int) -> bool {
    i64::MIN <= x <= i64::MAX
}

/// Sums over adjacent ranges add up.
pub proof fn lemma_sum_split(s: Seq<int>, i: int, j: int, k: int)
    requires
        i <= j <= k,
    ensures
        sum_range(s, i, k) == sum_range(s, i, j) + sum_range(s, j, k),
    decreases k - j,
{
    if j < k {
        lemma_sum_split(s, i, j, k - 1);
    }
}

/// Constant-time range-sum queries over a fixed list of values.
pub struct PrefixSum {
    sums: Vec<i64>,
    vals: Ghost<Seq<int>>,
}

impl PrefixSum {
    /// The values the structure was built from.
    pub closed spec fn values(self) -> Seq<int> {
        self.vals@
    }

    /// Internal consistency: one running sum per value.
    pub closed spec fn wf(self) -> bool {
        &&& self.sums@.len() == self.vals@.len()
        &&& forall|k: int|
            0 <= k < self.sums@.len() ==> self.sums@[k] as int == sum_range(self.vals@, 0, k + 1)
    }

    /// Builds the running sums of `values`.  Every prefix sum must fit the
    /// machine word; the structure stores them as such.
    pub fn new(values: &Vec<i64>) -> (r: PrefixSum)
        requires
            forall|k: int|
                0 <= k <= values@.len() ==> fits_i64(#[trigger] sum_range(vals_of(values@), 0, k)),
        ensures
            r.wf(),
            r.values() == vals_of(values@),
    {
        let ghost vals = vals_of(values@);
        let mut sums: Vec<i64> = Vec::new();
        let mut acc: i64 = 0;
        let mut i: usize = 0;
        while i < values.len()
            invariant
                i <= values@.len(),
                vals == vals_of(values@),
                forall|k: int| 0 <= k <= vals.len() ==> fits_i64(#[trigger] sum_range(vals, 0, k)),
                acc as int == sum_range(vals, 0, i as int),
                sums@.len() == i,
                forall|k: int| 0 <= k < i ==> sums@[k] as int == sum_range(vals, 0, k + 1),
            decreases values@.len() - i,
        {
            proof {
                assert(sum_range(vals, 0, i as int + 1) == sum_range(vals, 0, i as int)
                    + vals[i as int]);
            }
            acc = acc + values[i];
            sums.push(acc);
            i = i + 1;
        }
        PrefixSum { sums, vals: Ghost(vals) }
    }

    /// The sum of the values in `range`, an empty range summing to zero.
    /// The queried range's sum must fit the machine word; every range whose
    /// end exceeds the number of values is outside the contract.
    pub fn sum(&self, range: Range<usize>) -> (r: i64)
        requires
            self.wf(),
            range.end <= self.values().len(),
            fits_i64(sum_range(self.values(), range.start as int, range.end as int)),
        ensures
            r as int == sum_range(self.values(), range.start as int, range.end as int),
    {
        if range.start >= range.end {
            return 0;
        }
        let hi = self.sums[range.end - 1];
        let lo: i64 = if range.start == 0 {
            0
        } else {
            self.sums[range.start - 1]
        };
        proof {
            lemma_sum_split(self.vals@, 0, range.start as int, range.end as int);
        }
        hi - lo
    }
}

/// The bitwise exclusive-or of `s[i..j]`, zero for an empty range.
pub open spec fn xor_range(s: Seq<u64>, i: int, j: int) -> u64
    decreases j - i,
{
    if i < j {
        xor_range(s, i, j - 1) ^ s[j - 1]
    } else {
        0
    }
}

/// Exclusive-ors over adjacent ranges combine.
pub proof fn lemma_xor_split(s: Seq<u64>, i: int, j: int, k: int)
    requires
        i <= j <= k,
    ensures
        xor_range(s, i, k) == xor_range(s, i, j) ^ xor_range(s, j, k),
    decreases k - j,
{
    if j < k {
        lemma_xor_split(s, i, j, k - 1);
        let a = xor_range(s, i, j);
        let b = xor_range(s, j, k - 1);
        let c = s[k - 1];
        assert((a ^ b) ^ c == a ^ (b ^ c)) by (bit_vector);
    } else {
        let a = xor_range(s, i, j);
        assert(a ^ 0 == a) by (bit_vector);
    }
}

/// Constant-time range-exclusive-or queries over a fixed list of values.
pub struct PrefixXor {
    xors: Vec<u64>,
    vals: Ghost<Seq<u64>>,
}

impl PrefixXor {
    /// The values the structure was built from.
    pub closed spec fn values(self) -> Seq<u64> {
        self.vals@
    }

    /// Internal consistency: one running exclusive-or per value.
    pub closed spec fn wf(self) -> bool {
        &&& self.xors@.len() == self.vals@.len()
        &&& forall|k: int|
            0 <= k < self.xors@.len() ==> self.xors@[k] == xor_range(self.vals@, 0, k + 1)
    }

    /// Builds the running exclusive-ors of `values`.
    pub fn new(values: &Vec<u64>) -> (r: PrefixXor)
        ensures
            r.wf(),
            r.values() == values@,
    {
        let mut xors: Vec<u64> = Vec::new();
        let mut acc: u64 = 0;
        let mut i: usize = 0;
        while i < values.len()
            invariant
                i <= values@.len(),
                acc == xor_range(values@, 0, i as int),
                xors@.len() == i,
                forall|k: int| 0 <= k < i ==> xors@[k] == xor_range(values@, 0, k + 1),
            decreases values@.len() - i,
        {
            acc = acc ^ values[i];
            xors.push(acc);
            i = i + 1;
        }
        PrefixXor { xors, vals: Ghost(values@) }
    }

    /// The exclusive-or of the values in `range`, an empty range giving
    /// zero.  Every range whose end exceeds the number of values is outside
    /// the contract.
    pub fn xor(&self, range: Range<usize>) -> (r: u64)
        requires
            self.wf(),
            range.end <= self.values().len(),
        ensures
            r == xor_range(self.values(), range.start as int, range.end as int),
    {
        if range.start >= range.end {
            return 0;
        }
        let hi = self.xors[range.end - 1];
        let lo: u64 = if range.start == 0 {
            0
        } else {
            self.xors[range.start - 1]
        };
        proof {
            lemma_xor_split(self.vals@, 0, range.start as int, range.end as int);
            let a = xor_range(self.vals@, 0, range.start as int);
            let b = xor_range(self.vals@, range.start as int, range.end as int);
            assert(a ^ (a ^ b) == b) by (bit_vector);
            assert((a ^ b) ^ a == b) by (bit_vector);
        }
        hi ^ lo
    }
}

} // verus!
