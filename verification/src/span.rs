use vstd::prelude::*;

verus! {

/// Half-open byte range `[start, end)` into one specific snapshot of source
/// text.  Ranges are only meaningful against the exact snapshot they were
/// computed from; ranges from different snapshots must never be mixed.
#[derive(Clone, Copy, PartialEq, Eq, Structural, Debug)]
pub struct ByteRange {
    pub start: usize,
    pub end: usize,
}

impl ByteRange {
    /// Well-formed against a snapshot of `len` bytes.
    pub open spec fn wf(self, len: nat) -> bool {
        self.start <= self.end && self.end <= len
    }

    /// Whether byte position `i` lies inside the range.
    pub open spec fn covers(self, i: int) -> bool {
        self.start <= i < self.end
    }

    /// The bytes of snapshot `src` that the range selects.
    pub open spec fn text(self, src: Seq<u8>) -> Seq<u8> {
        src.subrange(self.start as int, self.end as int)
    }
}

/// Whether any range in `spans` covers position `i`.
pub open spec fn covered(spans: Seq<ByteRange>, i: int) -> bool {
    exists|j: int| 0 <= j < spans.len() && spans[j].covers(i)
}

/// All ranges well-formed against a snapshot of `len` bytes.
pub open spec fn ranges_wf(spans: Seq<ByteRange>, len: nat) -> bool {
    forall|j: int| 0 <= j < spans.len() ==> spans[j].wf(len)
}

/// Whether any of the first `k` ranges in `spans` covers position `i`.
pub open spec fn covered_upto(spans: Seq<ByteRange>, k: int, i: int) -> bool {
    exists|j: int| 0 <= j < k && j < spans.len() && spans[j].covers(i)
}

/// Decides `covered(spans@, i)`.
pub fn range_covers(spans: &Vec<ByteRange>, i: usize) -> (r: bool)
    ensures
        r == covered(spans@, i as int),
{
    let mut j: usize = 0;
    let mut found: bool = false;
    while j < spans.len()
        invariant
            j <= spans@.len(),
            found == covered_upto(spans@, j as int, i as int),
        decreases spans@.len() - j,
    {
        if spans[j].start <= i && i < spans[j].end {
            found = true;
        }
        j = j + 1;
    }
    assert(found == covered(spans@, i as int));
    found
}

} // verus!
