use vstd::prelude::*;

use crate::bytes::{copy_bytes, copy_range};
use crate::span::ByteRange;

verus! {

/// The primary span of one compiler diagnostic: where it points in the
/// analysed snapshot, plus the rendered source line and highlight bounds
/// used by the correlator's trip-wire.  Highlight bounds are one-based, as
/// the compiler reports them.
pub struct DiagSpanRec {
    pub range: ByteRange,
    pub line: Vec<u8>,
    pub hl_start: usize,
    pub hl_end: usize,
}

/// The mathematical value of a `DiagSpanRec`.
pub ghost struct SpanView {
    pub range: ByteRange,
    pub line: Seq<u8>,
    pub hl_start: int,
    pub hl_end: int,
}

impl View for DiagSpanRec {
    type V = SpanView;

    open spec fn view(&self) -> SpanView {
        SpanView {
            range: self.range,
            line: self.line@,
            hl_start: self.hl_start as int,
            hl_end: self.hl_end as int,
        }
    }
}

/// The views of a list of diagnostic spans.
pub open spec fn span_views(spans: Seq<DiagSpanRec>) -> Seq<SpanView> {
    spans.map_values(|s: DiagSpanRec| s@)
}

/// One structured record of the compiler's diagnostic stream, after the
/// unverified shell has decoded a line of it: the record's type tag, the
/// diagnostic code if any, and its spans.
pub struct DiagRec {
    pub message_type: Vec<u8>,
    pub code: Option<Vec<u8>>,
    pub spans: Vec<DiagSpanRec>,
}

/// The byte string `diagnostic`: the type tag of true diagnostic records.
pub open spec fn diagnostic_tag() -> Seq<u8> {
    seq![100u8, 105u8, 97u8, 103u8, 110u8, 111u8, 115u8, 116u8, 105u8, 99u8]
}

/// The byte string `dead_code`: the code of declaration-never-used
/// diagnostics.
pub open spec fn dead_code_name() -> Seq<u8> {
    seq![100u8, 101u8, 97u8, 100u8, 95u8, 99u8, 111u8, 100u8, 101u8]
}

/// The byte string `unused_imports`: the code of imported-name-never-used
/// diagnostics.
pub open spec fn unused_imports_name() -> Seq<u8> {
    seq![
        117u8,
        110u8,
        117u8,
        115u8,
        101u8,
        100u8,
        95u8,
        105u8,
        109u8,
        112u8,
        111u8,
        114u8,
        116u8,
        115u8,
    ]
}

/// Whether a record is a true diagnostic reporting dead code or an unused
/// import: the only two codes the engine acts on.
pub open spec fn is_dead_code_diag(r: DiagRec) -> bool {
    &&& r.message_type@ == diagnostic_tag()
    &&& match r.code {
        Some(c) => c@ == dead_code_name() || c@ == unused_imports_name(),
        None => false,
    }
}

/// Every retained diagnostic carries at least one span; the compiler always
/// provides the primary span first.
pub open spec fn spans_present(records: Seq<DiagRec>) -> bool {
    forall|i: int|
        0 <= i < records.len() ==> (is_dead_code_diag(#[trigger] records[i])
            ==> records[i].spans@.len() >= 1)
}

/// Decides `spans_present`.  The unverified shell checks decoded records
/// with this before handing them to a pass, and treats a failure as the
/// fatal decode error it is.
pub fn check_spans_present(records: &Vec<DiagRec>) -> (r: bool)
    ensures
        r == spans_present(records@),
{
    let mut i: usize = 0;
    while i < records.len()
        invariant
            i <= records@.len(),
            forall|k: int|
                0 <= k < i ==> (is_dead_code_diag(#[trigger] records@[k])
                    ==> records@[k].spans@.len() >= 1),
        decreases records@.len() - i,
    {
        let r = &records[i];
        if record_is_dead_code(r) && r.spans.len() == 0 {
            assert(is_dead_code_diag(records@[i as int]) && records@[i as int].spans@.len()
                == 0);
            return false;
        }
        i = i + 1;
    }
    true
}

/// The first spans of the retained diagnostics among the first `n` records,
/// in stream order.
pub open spec fn dead_first_spans_upto(records: Seq<DiagRec>, n: int) -> Seq<SpanView>
    decreases n,
{
    if n <= 0 {
        Seq::empty()
    } else {
        let prev = dead_first_spans_upto(records, n - 1);
        if is_dead_code_diag(records[n - 1]) {
            prev.push(records[n - 1].spans@[0]@)
        } else {
            prev
        }
    }
}

/// The first spans of all retained diagnostics, in stream order.
pub open spec fn dead_first_spans(records: Seq<DiagRec>) -> Seq<SpanView> {
    dead_first_spans_upto(records, records.len() as int)
}

/// Keeps only the true diagnostics whose code is one of the two unused-code
/// predicates, and takes each one's first span.
pub fn collect_dead_code_spans(records: &Vec<DiagRec>) -> (out: Vec<DiagSpanRec>)
    requires
        spans_present(records@),
    ensures
        span_views(out@) == dead_first_spans(records@),
{
    let mut out: Vec<DiagSpanRec> = Vec::new();
    let mut i: usize = 0;
    while i < records.len()
        invariant
            i <= records@.len(),
            spans_present(records@),
            span_views(out@) == dead_first_spans_upto(records@, i as int),
        decreases records@.len() - i,
    {
        let r = &records[i];
        if record_is_dead_code(r) {
            let s = &r.spans[0];
            let copied = DiagSpanRec {
                range: s.range,
                line: copy_bytes(&s.line),
                hl_start: s.hl_start,
                hl_end: s.hl_end,
            };
            proof {
                assert(copied@ == records@[i as int].spans@[0]@);
            }
            out.push(copied);
            proof {
                assert(span_views(out@) =~= dead_first_spans_upto(records@, i as int + 1));
            }
        } else {
            proof {
                assert(span_views(out@) =~= dead_first_spans_upto(records@, i as int + 1));
            }
        }
        i = i + 1;
    }
    out
}

/// Decides `is_dead_code_diag`.
fn record_is_dead_code(r: &DiagRec) -> (b: bool)
    ensures
        b == is_dead_code_diag(*r),
{
    if !bytes_is_diagnostic_tag(&r.message_type) {
        return false;
    }
    match &r.code {
        Option::Some(c) => {
            let dead = c.len() == 9 && c[0] == 100 && c[1] == 101 && c[2] == 97 && c[3] == 100
                && c[4] == 95 && c[5] == 99 && c[6] == 111 && c[7] == 100 && c[8] == 101;
            let unused = c.len() == 14 && c[0] == 117 && c[1] == 110 && c[2] == 117 && c[3]
                == 115 && c[4] == 101 && c[5] == 100 && c[6] == 95 && c[7] == 105 && c[8] == 109
                && c[9] == 112 && c[10] == 111 && c[11] == 114 && c[12] == 116 && c[13] == 115;
            proof {
                if dead {
                    assert(c@ =~= dead_code_name());
                } else {
                    assert(c@ != dead_code_name());
                }
                if unused {
                    assert(c@ =~= unused_imports_name());
                } else {
                    assert(c@ != unused_imports_name());
                }
            }
            dead || unused
        },
        Option::None => false,
    }
}

/// Decides whether a byte string is the tag `diagnostic`.
fn bytes_is_diagnostic_tag(v: &Vec<u8>) -> (b: bool)
    ensures
        b == (v@ == diagnostic_tag()),
{
    let r = v.len() == 10 && v[0] == 100 && v[1] == 105 && v[2] == 97 && v[3] == 103 && v[4]
        == 110 && v[5] == 111 && v[6] == 115 && v[7] == 116 && v[8] == 105 && v[9] == 99;
    proof {
        if r {
            assert(v@ =~= diagnostic_tag());
        } else {
            assert(v@ != diagnostic_tag());
        }
    }
    r
}

/// The position of the first line feed in `s`, or `s.len()` if none.
pub open spec fn first_nl(s: Seq<u8>) -> int
    decreases s.len(),
{
    if s.len() == 0 {
        0
    } else if s[0] == 10 {
        0
    } else {
        1 + first_nl(s.drop_first())
    }
}

/// `first_nl` is the unique cut: in bounds, preceded by no line feed, and a
/// line feed itself unless it is the end.
pub proof fn lemma_first_nl_char(s: Seq<u8>, k: int)
    requires
        0 <= k <= s.len(),
        forall|m: int| 0 <= m < k ==> s[m] != 10,
        k < s.len() ==> s[k] == 10,
    ensures
        first_nl(s) == k,
    decreases k,
{
    if s.len() == 0 {
    } else if s[0] == 10 {
        assert(k == 0);
    } else {
        assert(k >= 1);
        lemma_first_nl_char(s.drop_first(), k - 1);
    }
}

/// One line with a trailing carriage return stripped, as the line iterator
/// of the standard library strips it.
pub open spec fn strip_cr(l: Seq<u8>) -> Seq<u8> {
    if l.len() > 0 && l[l.len() - 1] == 13 {
        l.drop_last()
    } else {
        l
    }
}

/// `first_nl` always lies between zero and the length.
pub proof fn lemma_first_nl_bounds(s: Seq<u8>)
    ensures
        0 <= first_nl(s) <= s.len(),
    decreases s.len(),
{
    if s.len() > 0 && s[0] != 10 {
        lemma_first_nl_bounds(s.drop_first());
    }
}

/// The nonempty lines of a byte stream: split at line feeds, each line's
/// trailing carriage return stripped, empty lines dropped.
pub open spec fn lines_of(s: Seq<u8>) -> Seq<Seq<u8>>
    decreases s.len(),
    via lines_of_decreases_proof
{
    if s.len() == 0 {
        Seq::empty()
    } else {
        let k = first_nl(s);
        let line = strip_cr(s.subrange(0, k));
        let rest = if k < s.len() {
            lines_of(s.subrange(k + 1, s.len() as int))
        } else {
            Seq::<Seq<u8>>::empty()
        };
        if line.len() == 0 {
            rest
        } else {
            seq![line] + rest
        }
    }
}

#[via_fn]
proof fn lines_of_decreases_proof(s: Seq<u8>) {
    lemma_first_nl_bounds(s);
}

/// Splits the compiler's output stream into its nonempty lines, one decoded
/// record per line.
pub fn split_lines(src: &Vec<u8>) -> (out: Vec<Vec<u8>>)
    ensures
        crate::bytes::views_of(out@) == lines_of(src@),
{
    let mut out: Vec<Vec<u8>> = Vec::new();
    split_lines_into(src, 0, &mut out);
    proof {
        assert(src@.subrange(0, src@.len() as int) =~= src@);
        assert(crate::bytes::views_of(out@) =~= lines_of(src@));
    }
    out
}

/// Appends the nonempty lines of `src[i..]` to `out`.
fn split_lines_into(src: &Vec<u8>, i: usize, out: &mut Vec<Vec<u8>>)
    requires
        i <= src@.len(),
    ensures
        crate::bytes::views_of(final(out)@) == crate::bytes::views_of(old(out)@) + lines_of(
            src@.subrange(i as int, src@.len() as int),
        ),
    decreases src@.len() - i,
{
    let ghost tail = src@.subrange(i as int, src@.len() as int);
    if i == src.len() {
        proof {
            assert(crate::bytes::views_of(out@) =~= crate::bytes::views_of(out@) + lines_of(
                tail,
            ));
        }
        return ;
    }
    let j = find_nl(src, i);
    proof {
        assert forall|m: int| 0 <= m < j - i implies tail[m] != 10 by {
            assert(tail[m] == src@[i + m]);
        }
        if (j - i) < tail.len() {
            assert(tail[j - i] == src@[j as int]);
        }
        lemma_first_nl_char(tail, j - i);
    }
    let mut line = copy_range(src, i, j);
    proof {
        assert(line@ =~= tail.subrange(0, j - i));
    }
    if line.len() > 0 && line[line.len() - 1] == 13 {
        let _ = line.pop();
        proof {
            assert(line@ =~= strip_cr(tail.subrange(0, j - i)));
        }
    }
    proof {
        assert(line@ == strip_cr(tail.subrange(0, j - i)));
    }
    if line.len() > 0 {
        let ghost pre = out@;
        let ghost l = line@;
        out.push(line);
        proof {
            assert(crate::bytes::views_of(out@) =~= crate::bytes::views_of(pre).push(l));
        }
    }
    let ghost mid = out@;
    if j < src.len() {
        split_lines_into(src, j + 1, out);
        proof {
            assert(src@.subrange(j + 1, src@.len() as int) =~= tail.subrange(
                j - i + 1,
                tail.len() as int,
            ));
        }
    }
    proof {
        assert(crate::bytes::views_of(out@) =~= crate::bytes::views_of(old(out)@) + lines_of(
            tail,
        ));
    }
}

/// The smallest position at or after `i` holding a line feed, or the length
/// if none.
fn find_nl(src: &Vec<u8>, i: usize) -> (j: usize)
    requires
        i <= src@.len(),
    ensures
        i <= j <= src@.len(),
        forall|m: int| i <= m < j ==> src@[m] != 10,
        j < src@.len() ==> src@[j as int] == 10,
{
    let mut j: usize = i;
    while j < src.len()
        invariant
            i <= j <= src@.len(),
            forall|m: int| i <= m < j ==> src@[m] != 10,
        decreases src@.len() - j,
    {
        if src[j] == 10 {
            return j;
        }
        j = j + 1;
    }
    j
}


} // verus!
