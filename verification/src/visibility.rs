use vstd::prelude::*;

use crate::span::{covered, range_covers, ByteRange};

verus! {

/// The byte string `pub(crate)`: the unit-restricted visibility spelling.
pub open spec fn pub_crate_text() -> Seq<u8> {
    seq![112u8, 117u8, 98u8, 40u8, 99u8, 114u8, 97u8, 116u8, 101u8, 41u8]
}

/// The byte string `pub`: the maximal-visibility marker token.
pub open spec fn pub_text() -> Seq<u8> {
    seq![112u8, 117u8, 98u8]
}

/// Whether some span starts at position `i`.
pub open spec fn is_start(spans: Seq<ByteRange>, i: int) -> bool {
    exists|j: int| 0 <= j < spans.len() && (#[trigger] spans[j]).start == i
}

/// Whether some span among the first `k` starts at position `i`.
pub open spec fn is_start_upto(spans: Seq<ByteRange>, k: int, i: int) -> bool {
    exists|j: int| 0 <= j < k && j < spans.len() && (#[trigger] spans[j]).start == i
}

/// The single forward byte-rewrite over the first `n` bytes: at each span
/// start emit the unit-restricted spelling, skip the remaining bytes of a
/// span, and copy every byte outside the spans unchanged.
pub open spec fn rewrite_upto(src: Seq<u8>, spans: Seq<ByteRange>, n: int) -> Seq<u8>
    decreases n,
{
    if n <= 0 {
        Seq::empty()
    } else {
        let prev = rewrite_upto(src, spans, n - 1);
        if is_start(spans, n - 1) {
            prev + pub_crate_text()
        } else if covered(spans, n - 1) {
            prev
        } else {
            prev.push(src[n - 1])
        }
    }
}

/// The whole rewritten buffer.
pub open spec fn rewritten(src: Seq<u8>, spans: Seq<ByteRange>) -> Seq<u8> {
    rewrite_upto(src, spans, src.len() as int)
}

/// Where position `a` of the input lands in the rewritten buffer.
pub open spec fn rewrite_offset(src: Seq<u8>, spans: Seq<ByteRange>, a: int) -> int {
    rewrite_upto(src, spans, a).len() as int
}

/// Decides `is_start(spans@, i)`.
fn starts_at(spans: &Vec<ByteRange>, i: usize) -> (r: bool)
    ensures
        r == is_start(spans@, i as int),
{
    let mut j: usize = 0;
    let mut found: bool = false;
    while j < spans.len()
        invariant
            j <= spans@.len(),
            found == is_start_upto(spans@, j as int, i as int),
        decreases spans@.len() - j,
    {
        if spans[j].start == i {
            found = true;
        }
        j = j + 1;
    }
    assert(found == is_start(spans@, i as int));
    found
}

/// Rewrites every maximal-visibility marker to the unit-restricted spelling,
/// producing a new buffer in one forward pass; all bytes outside the marker
/// spans are unchanged.  `pub_spans` are the marker token spans of the
/// snapshot's own parse.
pub fn replace_pub_with_pub_crate(src: &Vec<u8>, pub_spans: &Vec<ByteRange>) -> (out: Vec<u8>)
    ensures
        out@ == rewritten(src@, pub_spans@),
{
    let mut out: Vec<u8> = Vec::new();
    let mut i: usize = 0;
    while i < src.len()
        invariant
            i <= src@.len(),
            out@ == rewrite_upto(src@, pub_spans@, i as int),
        decreases src@.len() - i,
    {
        if starts_at(pub_spans, i) {
            let ghost pre = out@;
            out.push(112);
            out.push(117);
            out.push(98);
            out.push(40);
            out.push(99);
            out.push(114);
            out.push(97);
            out.push(116);
            out.push(101);
            out.push(41);
            proof {
                assert(out@ =~= pre + pub_crate_text());
            }
        } else if range_covers(pub_spans, i) {
        } else {
            out.push(src[i]);
        }
        i = i + 1;
    }
    out
}

/// Well-formed marker spans: inside the snapshot, nonempty, and each holding
/// exactly the maximal-visibility token's text.
pub open spec fn pub_spans_wf(src: Seq<u8>, spans: Seq<ByteRange>) -> bool {
    forall|j: int|
        0 <= j < spans.len() ==> (#[trigger] spans[j]).wf(src.len()) && spans[j].text(src)
            == pub_text()
}

/// Across a wholly uncovered stretch, the rewrite output grows by exactly
/// those bytes.
pub proof fn lemma_rewrite_upto_step(src: Seq<u8>, spans: Seq<ByteRange>, a: int, b: int)
    requires
        0 <= a <= b <= src.len(),
        forall|k: int| a <= k < b ==> !covered(spans, k) && !is_start(spans, k),
    ensures
        rewrite_upto(src, spans, b) == rewrite_upto(src, spans, a) + src.subrange(a, b),
    decreases b - a,
{
    if a < b {
        lemma_rewrite_upto_step(src, spans, a, b - 1);
        assert(rewrite_upto(src, spans, b) =~= rewrite_upto(src, spans, a) + src.subrange(
            a,
            b,
        ));
    } else {
        assert(rewrite_upto(src, spans, b) =~= rewrite_upto(src, spans, a) + src.subrange(
            a,
            b,
        ));
    }
}

/// Earlier cutoffs of the rewrite yield prefixes.
pub proof fn lemma_rewrite_upto_prefix(src: Seq<u8>, spans: Seq<ByteRange>, n: int, m: int)
    requires
        0 <= n <= m <= src.len(),
    ensures
        rewrite_upto(src, spans, n).len() <= rewrite_upto(src, spans, m).len(),
        rewrite_upto(src, spans, m).subrange(0, rewrite_upto(src, spans, n).len() as int)
            == rewrite_upto(src, spans, n),
    decreases m - n,
{
    if n < m {
        lemma_rewrite_upto_prefix(src, spans, n, m - 1);
        assert(rewrite_upto(src, spans, m).subrange(
            0,
            rewrite_upto(src, spans, n).len() as int,
        ) =~= rewrite_upto(src, spans, n));
    } else {
        assert(rewrite_upto(src, spans, m).subrange(
            0,
            rewrite_upto(src, spans, n).len() as int,
        ) =~= rewrite_upto(src, spans, n));
    }
}

/// The visibility rewrite changes no byte outside the marker spans: a
/// stretch `[a, b)` that no marker span touches reappears verbatim and
/// contiguously in the output.  Together with the replacement law below,
/// every token other than a visibility marker survives unchanged.
pub proof fn lemma_rewrite_preserves_outside(
    src: Seq<u8>,
    spans: Seq<ByteRange>,
    a: int,
    b: int,
)
    requires
        pub_spans_wf(src, spans),
        0 <= a <= b <= src.len(),
        forall|k: int| a <= k < b ==> !covered(spans, k),
    ensures
        rewrite_offset(src, spans, b) == rewrite_offset(src, spans, a) + (b - a),
        rewrite_offset(src, spans, a) + (b - a) <= rewritten(src, spans).len(),
        rewritten(src, spans).subrange(
            rewrite_offset(src, spans, a),
            rewrite_offset(src, spans, a) + (b - a),
        ) == src.subrange(a, b),
{
    assert forall|k: int| a <= k < b implies !covered(spans, k) && !is_start(spans, k) by {
        if is_start(spans, k) {
            let j = choose|j: int|
                0 <= j < spans.len() && (#[trigger] spans[j]).start == k;
            assert(spans[j].wf(src.len()) && spans[j].text(src) == pub_text());
            assert(spans[j].text(src).len() == 3);
            assert(spans[j].end - spans[j].start == 3);
            assert(spans[j].covers(k));
            assert(covered(spans, k));
        }
        assert(!covered(spans, k));
    }
    lemma_rewrite_upto_step(src, spans, a, b);
    lemma_rewrite_upto_prefix(src, spans, b, src.len() as int);
    let off_a = rewrite_offset(src, spans, a);
    let total = rewritten(src, spans);
    let upto_b = rewrite_upto(src, spans, b);
    assert(off_a + (b - a) <= total.len());
    assert forall|i: int| 0 <= i < b - a implies #[trigger] total.subrange(
        off_a,
        off_a + (b - a),
    )[i] == src.subrange(a, b)[i] by {
        assert(total.subrange(0, upto_b.len() as int)[off_a + i] == upto_b[off_a + i]);
        assert(upto_b[off_a + i] == src.subrange(a, b)[i]);
        assert(total.subrange(off_a, off_a + (b - a))[i] == total[off_a + i]);
    }
    assert(total.subrange(off_a, off_a + (b - a)) =~= src.subrange(a, b));
}

/// The visibility rewrite replaces each marker: at every span start the
/// output holds the unit-restricted spelling.
pub proof fn lemma_rewrite_replaces_marker(src: Seq<u8>, spans: Seq<ByteRange>, p: int)
    requires
        0 <= p < src.len(),
        is_start(spans, p),
    ensures
        rewrite_offset(src, spans, p) + pub_crate_text().len() <= rewritten(src, spans).len(),
        rewritten(src, spans).subrange(
            rewrite_offset(src, spans, p),
            rewrite_offset(src, spans, p) + pub_crate_text().len() as int,
        ) == pub_crate_text(),
{
    assert(rewrite_upto(src, spans, p + 1) == rewrite_upto(src, spans, p) + pub_crate_text());
    lemma_rewrite_upto_prefix(src, spans, p + 1, src.len() as int);
    let off = rewrite_offset(src, spans, p);
    let total = rewritten(src, spans);
    let upto = rewrite_upto(src, spans, p + 1);
    assert(off + pub_crate_text().len() <= total.len());
    assert forall|i: int| 0 <= i < pub_crate_text().len() implies #[trigger] total.subrange(
        off,
        off + pub_crate_text().len() as int,
    )[i] == pub_crate_text()[i] by {
        assert(total.subrange(0, upto.len() as int)[off + i] == upto[off + i]);
        assert(upto[off + i] == pub_crate_text()[i]);
        assert(total.subrange(off, off + pub_crate_text().len() as int)[i] == total[off + i]);
    }
    assert(total.subrange(off, off + pub_crate_text().len() as int) =~= pub_crate_text());
}

} // verus!
