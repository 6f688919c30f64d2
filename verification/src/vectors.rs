use vstd::prelude::*;

verus! {

/// Every entry lies between `lo` and `hi` inclusive.
pub open spec fn in_range(v: Seq<i64>, lo: i64, hi: i64) -> bool {
    forall|i: int| 0 <= i < v.len() ==> lo <= #[trigger] v[i] <= hi
}

/// The last position whose entry can still be incremented below `hi`, or
/// `-1` if every entry is already at the ceiling.
pub open spec fn last_inc_idx(v: Seq<i64>, hi: i64) -> int
    decreases v.len(),
{
    if v.len() == 0 {
        -1
    } else if v[v.len() - 1] < hi {
        v.len() - 1
    } else {
        last_inc_idx(v.drop_last(), hi)
    }
}

/// The successor vector: the last incrementable entry is raised by one and
/// everything after it wraps back to the floor.
pub open spec fn inc_result(v: Seq<i64>, lo: i64, hi: i64) -> Seq<i64> {
    let k = last_inc_idx(v, hi);
    Seq::new(
        v.len(),
        |j: int|
            if j < k {
                v[j]
            } else if j == k {
                (v[k] + 1) as i64
            } else {
                lo
            },
    )
}

/// The all-floor vector of a given length.
pub open spec fn all_min(len: int, lo: i64) -> Seq<i64> {
    Seq::new(len as nat, |j: int| lo)
}

/// `last_inc_idx` is the unique position below the ceiling with nothing
/// below the ceiling after it.
pub proof fn lemma_last_inc_char(v: Seq<i64>, hi: i64, k: int)
    requires
        -1 <= k < v.len(),
        k >= 0 ==> v[k] < hi,
        forall|j: int| k < j < v.len() ==> #[trigger] v[j] >= hi,
    ensures
        last_inc_idx(v, hi) == k,
    decreases v.len(),
{
    if v.len() > 0 {
        if v[v.len() - 1] < hi {
            assert(k == v.len() - 1);
        } else {
            assert(k < v.len() - 1);
            assert forall|j: int| k < j < v.drop_last().len() implies #[trigger] v.drop_last()[
                j
            ] >= hi by {
                assert(v.drop_last()[j] == v[j]);
            }
            lemma_last_inc_char(v.drop_last(), hi, k);
        }
    }
}

/// Enumerates, one `next` at a time, every vector of one fixed length whose
/// entries lie in a closed range, in ascending lexicographic order starting
/// after the all-floor vector.
pub struct AllVectorsIterator {
    vector: Vec<i64>,
    min_val: i64,
    max_val: i64,
}

impl AllVectorsIterator {
    /// The vector most recently yielded, or the all-floor starting point.
    pub closed spec fn current(self) -> Seq<i64> {
        self.vector@
    }

    /// The floor of the entry range.
    pub closed spec fn lo(self) -> i64 {
        self.min_val
    }

    /// The ceiling of the entry range.
    pub closed spec fn hi(self) -> i64 {
        self.max_val
    }

    /// The range is ordered and the cursor stays inside it.
    pub closed spec fn wf(self) -> bool {
        self.min_val <= self.max_val && in_range(self.vector@, self.min_val, self.max_val)
    }

    /// A fresh enumerator over vectors of length `len`, positioned at the
    /// all-floor vector.
    pub fn new(len: usize, min_val: i64, max_val: i64) -> (r: AllVectorsIterator)
        requires
            min_val <= max_val,
        ensures
            r.wf(),
            r.lo() == min_val,
            r.hi() == max_val,
            r.current() == all_min(len as int, min_val),
    {
        let mut vector: Vec<i64> = Vec::new();
        let mut i: usize = 0;
        while i < len
            invariant
                i <= len,
                vector@.len() == i,
                forall|k: int| 0 <= k < i ==> vector@[k] == min_val,
            decreases len - i,
        {
            vector.push(min_val);
            i = i + 1;
        }
        proof {
            assert(vector@ =~= all_min(len as int, min_val));
        }
        AllVectorsIterator { vector, min_val, max_val }
    }

    /// Advances to and yields the successor of the current vector, or
    /// nothing once every entry sits at the ceiling.
    pub fn next(&mut self) -> (r: Option<Vec<i64>>)
        requires
            old(self).wf(),
        ensures
            final(self).wf(),
            final(self).lo() == old(self).lo(),
            final(self).hi() == old(self).hi(),
            match r {
                Some(v) => last_inc_idx(old(self).current(), old(self).hi()) >= 0 && v@
                    == inc_result(old(self).current(), old(self).lo(), old(self).hi()) && final(self).current() == v@,
                None => last_inc_idx(old(self).current(), old(self).hi()) == -1
                    && final(self).current() == old(self).current(),
            },
    {
        let n = self.vector.len();
        let mut k: usize = n;
        let mut done: bool = false;
        let mut idx: usize = 0;
        while k > 0 && !done
            invariant
                k <= n,
                n == self.vector@.len(),
                *self == *old(self),
                !done ==> forall|j: int| k <= j < n ==> #[trigger] self.vector@[j] >= self.hi(),
                done ==> k >= 1 && idx == k - 1 && idx < n && self.vector@[idx as int]
                    < self.hi() && forall|j: int|
                    idx < j < n ==> #[trigger] self.vector@[j] >= self.hi(),
            decreases k + (if done {
                0int
            } else {
                1int
            }),
        {
            if self.vector[k - 1] < self.max_val {
                idx = k - 1;
                done = true;
            } else {
                k = k - 1;
            }
        }
        if !done {
            proof {
                lemma_last_inc_char(self.vector@, self.hi(), -1);
            }
            return None;
        }
        proof {
            lemma_last_inc_char(self.vector@, self.hi(), idx as int);
        }
        let ghost before = self.vector@;
        let cur = self.vector[idx];
        self.vector.set(idx, cur + 1);
        let mut j: usize = idx + 1;
        while j < self.vector.len()
            invariant
                idx < j <= self.vector@.len(),
                self.vector@.len() == before.len(),
                self.min_val == old(self).min_val,
                self.max_val == old(self).max_val,
                self.min_val <= self.max_val,
                before == old(self).vector@,
                before[idx as int] < self.max_val,
                forall|m: int| idx < m < before.len() ==> #[trigger] before[m] >= self.max_val,
                forall|m: int| 0 <= m < idx ==> self.vector@[m] == before[m],
                self.vector@[idx as int] == before[idx as int] + 1,
                forall|m: int| idx < m < j ==> self.vector@[m] == self.min_val,
                forall|m: int| j <= m < before.len() ==> self.vector@[m] == before[m],
                in_range(before, self.min_val, self.max_val),
            decreases self.vector@.len() - j,
        {
            self.vector.set(j, self.min_val);
            j = j + 1;
        }
        proof {
            lemma_last_inc_char(before, self.hi(), idx as int);
            assert(self.vector@ =~= inc_result(before, self.lo(), self.hi()));
        }
        let out = copy_vals(&self.vector);
        Some(out)
    }
}

/// An element-for-element copy of a vector of machine integers.
fn copy_vals(v: &Vec<i64>) -> (out: Vec<i64>)
    ensures
        out@ == v@,
{
    let mut out: Vec<i64> = Vec::new();
    let mut i: usize = 0;
    while i < v.len()
        invariant
            i <= v@.len(),
            out@ == v@.subrange(0, i as int),
        decreases v@.len() - i,
    {
        out.push(v[i]);
        proof {
            assert(out@ =~= v@.subrange(0, i as int + 1));
        }
        i = i + 1;
    }
    proof {
        assert(v@.subrange(0, v@.len() as int) =~= v@);
    }
    out
}

/// Enumerates every vector of every length in a closed length range, the
/// shorter lengths first, each length in the order its own enumerator
/// yields.
pub struct AllVectors {
    cur: AllVectorsIterator,
    cur_len: usize,
    max_len: usize,
}

impl AllVectors {
    /// The inner enumerator's current vector.
    pub closed spec fn current(self) -> Seq<i64> {
        self.cur.current()
    }

    /// The floor of the entry range.
    pub closed spec fn lo(self) -> i64 {
        self.cur.lo()
    }

    /// The ceiling of the entry range.
    pub closed spec fn hi(self) -> i64 {
        self.cur.hi()
    }

    /// The length currently being enumerated.
    pub closed spec fn cur_len(self) -> int {
        self.cur_len as int
    }

    /// The last length to enumerate.
    pub closed spec fn top_len(self) -> int {
        self.max_len as int
    }

    /// The inner enumerator is well formed and matches the current length.
    pub closed spec fn wf(self) -> bool {
        self.cur.wf() && (self.cur_len <= self.max_len ==> self.cur.current().len()
            == self.cur_len as int)
    }

    /// Advances to and yields the next vector, moving on to the next length
    /// when the current one is exhausted; lengths whose enumerators yield
    /// nothing are skipped.
    pub fn next(&mut self) -> (r: Option<Vec<i64>>)
        requires
            old(self).wf(),
        ensures
            final(self).wf(),
            final(self).lo() == old(self).lo(),
            final(self).hi() == old(self).hi(),
            final(self).top_len() == old(self).top_len(),
            match r {
                Some(v) => {
                    &&& old(self).cur_len() <= final(self).cur_len() <= old(self).top_len()
                    &&& v@.len() == final(self).cur_len()
                    &&& final(self).current() == v@
                    &&& (v@.len() == old(self).cur_len() ==> v@ == inc_result(
                        old(self).current(),
                        old(self).lo(),
                        old(self).hi(),
                    ))
                    &&& (v@.len() > old(self).cur_len() ==> last_inc_idx(
                        old(self).current(),
                        old(self).hi(),
                    ) == -1 && v@ == inc_result(
                        all_min(v@.len() as int, old(self).lo()),
                        old(self).lo(),
                        old(self).hi(),
                    ) && forall|l: int|
                        old(self).cur_len() < l < v@.len() ==> last_inc_idx(
                            all_min(l, old(self).lo()),
                            old(self).hi(),
                        ) == -1)
                },
                None => {
                    &&& final(self).cur_len() >= old(self).top_len()
                    &&& (old(self).cur_len() <= old(self).top_len() ==> last_inc_idx(
                        old(self).current(),
                        old(self).hi(),
                    ) == -1 && forall|l: int|
                        old(self).cur_len() < l <= old(self).top_len() ==> last_inc_idx(
                            all_min(l, old(self).lo()),
                            old(self).hi(),
                        ) == -1)
                },
            },
    {
        if self.cur_len > self.max_len {
            return None;
        }
        match self.cur.next() {
            Option::Some(v) => {
                return Some(v);
            },
            Option::None => {},
        }
        while self.cur_len < self.max_len
            invariant
                self.wf(),
                self.cur_len <= self.max_len,
                self.lo() == old(self).lo(),
                self.hi() == old(self).hi(),
                self.top_len() == old(self).top_len(),
                old(self).cur_len() <= self.cur_len(),
                last_inc_idx(old(self).current(), old(self).hi()) == -1,
                old(self).cur_len() <= old(self).top_len(),
                self.cur_len() > old(self).cur_len() ==> self.current() == all_min(
                    self.cur_len(),
                    old(self).lo(),
                ) && last_inc_idx(self.current(), self.hi()) == -1,
                forall|l: int|
                    old(self).cur_len() < l < self.cur_len() ==> last_inc_idx(
                        all_min(l, old(self).lo()),
                        old(self).hi(),
                    ) == -1,
                forall|l: int|
                    old(self).cur_len() < l <= self.cur_len() && l < self.cur_len()
                        ==> last_inc_idx(all_min(l, old(self).lo()), old(self).hi()) == -1,
            decreases self.max_len - self.cur_len,
        {
            self.cur_len = self.cur_len + 1;
            let fresh = AllVectorsIterator::new(self.cur_len, self.cur.min_of(), self.cur.max_of());
            self.cur = fresh;
            match self.cur.next() {
                Option::Some(v) => {
                    return Some(v);
                },
                Option::None => {},
            }
        }
        None
    }
}

impl AllVectorsIterator {
    /// The floor of the entry range, as a value.
    pub fn min_of(&self) -> (r: i64)
        ensures
            r == self.lo(),
    {
        self.min_val
    }

    /// The ceiling of the entry range, as a value.
    pub fn max_of(&self) -> (r: i64)
        ensures
            r == self.hi(),
    {
        self.max_val
    }
}

/// An enumerator over every vector of every length from `min_len` to
/// `max_len` with entries between `min_val` and `max_val`.
pub fn iter_all_vectors(min_len: usize, max_len: usize, min_val: i64, max_val: i64) -> (r:
    AllVectors)
    requires
        min_val <= max_val,
    ensures
        r.wf(),
        r.lo() == min_val,
        r.hi() == max_val,
        r.cur_len() == min_len as int,
        r.top_len() == max_len as int,
        r.current() == all_min(min_len as int, min_val),
{
    AllVectors { cur: AllVectorsIterator::new(min_len, min_val, max_val), cur_len: min_len, max_len }
}

} // verus!
