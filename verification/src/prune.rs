use vstd::prelude::*;

use crate::bytes::{name_list_contains, names_contain, views_of};
use crate::correlate::DeadSet;
use crate::decl::{Decl, DeclKind, ImportShape};
use crate::errors::EngineError;
use crate::span::{covered, range_covers, ByteRange};

verus! {

/// The bytes of `src` before position `n` that no range in `spans` covers,
/// in their original order.
pub open spec fn retained_upto(src: Seq<u8>, spans: Seq<ByteRange>, n: int) -> Seq<u8>
    decreases n,
{
    if n <= 0 {
        Seq::empty()
    } else {
        let prefix = retained_upto(src, spans, n - 1);
        if covered(spans, n - 1) {
            prefix
        } else {
            prefix.push(src[n - 1])
        }
    }
}

/// The bytes of `src` that survive deleting every range in `spans`:
/// the uncovered bytes, in their original order.
pub open spec fn retained(src: Seq<u8>, spans: Seq<ByteRange>) -> Seq<u8> {
    retained_upto(src, spans, src.len() as int)
}

/// Where a surviving byte at original position `a` lands in the output:
/// the number of uncovered positions before `a`.
pub open spec fn retained_offset(src: Seq<u8>, spans: Seq<ByteRange>, a: int) -> int {
    retained_upto(src, spans, a).len() as int
}

/// Deletes the bytes that `spans` covers, preserving order and content of
/// everything outside the deleted ranges exactly.
pub fn remove_spans(src: &Vec<u8>, spans: &Vec<ByteRange>) -> (out: Vec<u8>)
    ensures
        out@ == retained(src@, spans@),
{
    let mut out: Vec<u8> = Vec::new();
    let mut i: usize = 0;
    while i < src.len()
        invariant
            i <= src@.len(),
            out@ == retained_upto(src@, spans@, i as int),
        decreases src@.len() - i,
    {
        if !range_covers(spans, i) {
            out.push(src[i]);
        }
        i = i + 1;
    }
    out
}

/// Deleting bytes never lengthens the text.
pub proof fn lemma_retained_upto_len(src: Seq<u8>, spans: Seq<ByteRange>, n: int)
    requires
        0 <= n <= src.len(),
    ensures
        retained_upto(src, spans, n).len() <= n,
    decreases n,
{
    if n > 0 {
        lemma_retained_upto_len(src, spans, n - 1);
    }
}

/// If nothing was deleted from the first `n` bytes, they survive unchanged.
pub proof fn lemma_retained_upto_full(src: Seq<u8>, spans: Seq<ByteRange>, n: int)
    requires
        0 <= n <= src.len(),
        retained_upto(src, spans, n).len() == n,
    ensures
        retained_upto(src, spans, n) == src.subrange(0, n),
    decreases n,
{
    if n > 0 {
        lemma_retained_upto_len(src, spans, n - 1);
        assert(!covered(spans, n - 1));
        lemma_retained_upto_full(src, spans, n - 1);
        assert(retained_upto(src, spans, n) =~= src.subrange(0, n));
    } else {
        assert(retained_upto(src, spans, n) =~= src.subrange(0, n));
    }
}

/// An output of the same length as its input is the input itself: deletion
/// either removes at least one byte or changes nothing.
pub proof fn lemma_retained_shrinks(src: Seq<u8>, spans: Seq<ByteRange>)
    ensures
        retained(src, spans).len() <= src.len(),
        retained(src, spans) != src ==> retained(src, spans).len() < src.len(),
{
    lemma_retained_upto_len(src, spans, src.len() as int);
    if retained(src, spans).len() == src.len() {
        lemma_retained_upto_full(src, spans, src.len() as int);
        assert(src.subrange(0, src.len() as int) =~= src);
    }
}

/// Earlier cutoffs yield prefixes: `retained_upto(n)` is a prefix of
/// `retained_upto(m)` for `n <= m`.
pub proof fn lemma_retained_upto_prefix(src: Seq<u8>, spans: Seq<ByteRange>, n: int, m: int)
    requires
        0 <= n <= m <= src.len(),
    ensures
        retained_upto(src, spans, n).len() <= retained_upto(src, spans, m).len(),
        retained_upto(src, spans, m).subrange(0, retained_upto(src, spans, n).len() as int)
            == retained_upto(src, spans, n),
    decreases m - n,
{
    if n < m {
        lemma_retained_upto_prefix(src, spans, n, m - 1);
        assert(retained_upto(src, spans, m).subrange(
            0,
            retained_upto(src, spans, n).len() as int,
        ) =~= retained_upto(src, spans, n));
    } else {
        assert(retained_upto(src, spans, m).subrange(
            0,
            retained_upto(src, spans, n).len() as int,
        ) =~= retained_upto(src, spans, n));
    }
}

/// Across a wholly uncovered stretch `[a, b)`, the output grows by exactly
/// those bytes, verbatim.
pub proof fn lemma_retained_upto_step(src: Seq<u8>, spans: Seq<ByteRange>, a: int, b: int)
    requires
        0 <= a <= b <= src.len(),
        forall|k: int| a <= k < b ==> !covered(spans, k),
    ensures
        retained_upto(src, spans, b) == retained_upto(src, spans, a) + src.subrange(a, b),
    decreases b - a,
{
    if a < b {
        lemma_retained_upto_step(src, spans, a, b - 1);
        assert(retained_upto(src, spans, b) =~= retained_upto(src, spans, a) + src.subrange(
            a,
            b,
        ));
    } else {
        assert(retained_upto(src, spans, b) =~= retained_upto(src, spans, a) + src.subrange(
            a,
            b,
        ));
    }
}

/// Byte-exact preservation: a stretch `[a, b)` of the input that no deleted
/// range touches reappears in the output contiguously, verbatim, at the
/// offset given by the number of surviving bytes before it.  Together with
/// the monotonicity of that offset this says that concatenating the retained
/// ranges in original order reproduces the surviving text exactly.
pub proof fn lemma_uncovered_range_preserved(
    src: Seq<u8>,
    spans: Seq<ByteRange>,
    a: int,
    b: int,
)
    requires
        0 <= a <= b <= src.len(),
        forall|k: int| a <= k < b ==> !covered(spans, k),
    ensures
        retained_offset(src, spans, b) == retained_offset(src, spans, a) + (b - a),
        retained_offset(src, spans, a) + (b - a) <= retained(src, spans).len(),
        retained(src, spans).subrange(
            retained_offset(src, spans, a),
            retained_offset(src, spans, a) + (b - a),
        ) == src.subrange(a, b),
{
    lemma_retained_upto_step(src, spans, a, b);
    lemma_retained_upto_prefix(src, spans, b, src.len() as int);
    let off_a = retained_offset(src, spans, a);
    let total = retained(src, spans);
    let upto_b = retained_upto(src, spans, b);
    assert(off_a + (b - a) <= total.len());
    assert forall|i: int| 0 <= i < b - a implies #[trigger] total.subrange(
        off_a,
        off_a + (b - a),
    )[i] == src.subrange(a, b)[i] by {
        assert(total.subrange(0, upto_b.len() as int)[off_a + i] == upto_b[off_a + i]);
        assert(upto_b[off_a + i] == src.subrange(a, b)[i]);
        assert(total.subrange(off_a, off_a + (b - a))[i] == total[off_a + i]);
    }
    assert(total.subrange(off_a, off_a + (b - a)) =~= src.subrange(a, b));
}

/// A declaration whose shape the pruner does not handle: an implementation
/// block whose target type or trait path has more than one segment, or an
/// import that is not a plain path.  Such shapes abort the pass explicitly
/// rather than risking a mis-prune.
pub open spec fn unsupported_decl(d: Decl) -> bool {
    match d.kind {
        DeclKind::ImplDecl { self_path, trait_path } => (match self_path {
            Some(p) => p.segments != 1,
            None => false,
        }) || (match trait_path {
            Some(p) => p.segments != 1,
            None => false,
        }),
        DeclKind::ImportDecl(shape) => (shape matches ImportShape::OtherShape),
        _ => false,
    }
}

/// Whether any declaration in the list is unsupported.
pub open spec fn any_unsupported(decls: Seq<Decl>) -> bool {
    exists|i: int| 0 <= i < decls.len() && unsupported_decl(#[trigger] decls[i])
}

/// The spans one declaration contributes to deletion, given the dead name
/// lists: the whole declaration span for a dead named declaration, for an
/// implementation block whose target type or implemented trait is dead
/// (either alone suffices), and for an import whose imported name — its
/// terminal path segment — is a dead import.
pub open spec fn decl_selected(
    d: Decl,
    sn: Seq<Seq<u8>>,
    fnn: Seq<Seq<u8>>,
    tn: Seq<Seq<u8>>,
    inn: Seq<Seq<u8>>,
) -> Seq<ByteRange> {
    match d.kind {
        DeclKind::StructDecl(id) => if names_contain(sn, id.text@) {
            seq![d.span]
        } else {
            Seq::empty()
        },
        DeclKind::FnDecl(id) => if names_contain(fnn, id.text@) {
            seq![d.span]
        } else {
            Seq::empty()
        },
        DeclKind::TraitDecl(id) => if names_contain(tn, id.text@) {
            seq![d.span]
        } else {
            Seq::empty()
        },
        DeclKind::ImplDecl { self_path, trait_path } => (match self_path {
            Some(p) => if names_contain(sn, p.last@) {
                seq![d.span]
            } else {
                Seq::<ByteRange>::empty()
            },
            None => Seq::empty(),
        }) + (match trait_path {
            Some(p) => if names_contain(tn, p.last@) {
                seq![d.span]
            } else {
                Seq::<ByteRange>::empty()
            },
            None => Seq::empty(),
        }),
        DeclKind::ImportDecl(shape) => match shape {
            ImportShape::PathShape { terminal, .. } => if names_contain(inn, terminal@) {
                seq![d.span]
            } else {
                Seq::empty()
            },
            ImportShape::OtherShape => Seq::empty(),
        },
        DeclKind::ModuleDecl(_) => Seq::empty(),
    }
}

/// The spans the first `n` declarations contribute, in declaration order.
pub open spec fn selected_upto(
    decls: Seq<Decl>,
    sn: Seq<Seq<u8>>,
    fnn: Seq<Seq<u8>>,
    tn: Seq<Seq<u8>>,
    inn: Seq<Seq<u8>>,
    n: int,
) -> Seq<ByteRange>
    decreases n,
{
    if n <= 0 {
        Seq::empty()
    } else {
        selected_upto(decls, sn, fnn, tn, inn, n - 1) + decl_selected(
            decls[n - 1],
            sn,
            fnn,
            tn,
            inn,
        )
    }
}

/// All spans to delete, in declaration order.
pub open spec fn selected(
    decls: Seq<Decl>,
    sn: Seq<Seq<u8>>,
    fnn: Seq<Seq<u8>>,
    tn: Seq<Seq<u8>>,
    inn: Seq<Seq<u8>>,
) -> Seq<ByteRange> {
    selected_upto(decls, sn, fnn, tn, inn, decls.len() as int)
}

/// Resolves every dead identity to the spans of all related declarations:
/// the declaration itself, every implementation block targeting it, and
/// every import statement led by a dead import segment.  Refuses, rather
/// than mis-prunes, any unsupported shape.
pub fn select_dead_spans(decls: &Vec<Decl>, dead: &DeadSet) -> (r: Result<
    Vec<ByteRange>,
    EngineError,
>)
    ensures
        ({
            let sn = views_of(dead.structs@);
            let fnn = views_of(dead.fns@);
            let tn = views_of(dead.traits@);
            let inn = views_of(dead.imports@);
            match r {
                Ok(out) => !any_unsupported(decls@) && out@ == selected(
                    decls@,
                    sn,
                    fnn,
                    tn,
                    inn,
                ),
                Err(e) => e == EngineError::Unsupported && any_unsupported(decls@),
            }
        }),
{
    if find_unsupported(decls) {
        return Err(EngineError::Unsupported);
    }
    let ghost sn = views_of(dead.structs@);
    let ghost fnn = views_of(dead.fns@);
    let ghost tn = views_of(dead.traits@);
    let ghost inn = views_of(dead.imports@);
    let mut out: Vec<ByteRange> = Vec::new();
    let mut i: usize = 0;
    while i < decls.len()
        invariant
            i <= decls@.len(),
            sn == views_of(dead.structs@),
            fnn == views_of(dead.fns@),
            tn == views_of(dead.traits@),
            inn == views_of(dead.imports@),
            out@ == selected_upto(decls@, sn, fnn, tn, inn, i as int),
        decreases decls@.len() - i,
    {
        let d = &decls[i];
        let ghost pre = out@;
        match &d.kind {
            DeclKind::StructDecl(id) => {
                if name_list_contains(&dead.structs, &id.text) {
                    out.push(d.span);
                }
            },
            DeclKind::FnDecl(id) => {
                if name_list_contains(&dead.fns, &id.text) {
                    out.push(d.span);
                }
            },
            DeclKind::TraitDecl(id) => {
                if name_list_contains(&dead.traits, &id.text) {
                    out.push(d.span);
                }
            },
            DeclKind::ImplDecl { self_path, trait_path } => {
                match self_path {
                    Option::Some(p) => {
                        if name_list_contains(&dead.structs, &p.last) {
                            out.push(d.span);
                        }
                    },
                    Option::None => {},
                }
                match trait_path {
                    Option::Some(p) => {
                        if name_list_contains(&dead.traits, &p.last) {
                            out.push(d.span);
                        }
                    },
                    Option::None => {},
                }
            },
            DeclKind::ImportDecl(shape) => {
                match shape {
                    ImportShape::PathShape { terminal, .. } => {
                        if name_list_contains(&dead.imports, terminal) {
                            out.push(d.span);
                        }
                    },
                    ImportShape::OtherShape => {},
                }
            },
            DeclKind::ModuleDecl(_) => {},
        }
        proof {
            assert(out@ =~= pre + decl_selected(decls@[i as int], sn, fnn, tn, inn));
        }
        i = i + 1;
    }
    Ok(out)
}

/// Decides `any_unsupported`.
fn find_unsupported(decls: &Vec<Decl>) -> (b: bool)
    ensures
        b == any_unsupported(decls@),
{
    let mut i: usize = 0;
    while i < decls.len()
        invariant
            i <= decls@.len(),
            forall|k: int| 0 <= k < i ==> !unsupported_decl(#[trigger] decls@[k]),
        decreases decls@.len() - i,
    {
        let d = &decls[i];
        let bad = match &d.kind {
            DeclKind::ImplDecl { self_path, trait_path } => {
                let s_bad = match self_path {
                    Option::Some(p) => p.segments != 1,
                    Option::None => false,
                };
                let t_bad = match trait_path {
                    Option::Some(p) => p.segments != 1,
                    Option::None => false,
                };
                s_bad || t_bad
            },
            DeclKind::ImportDecl(shape) => match shape {
                ImportShape::PathShape { .. } => false,
                ImportShape::OtherShape => true,
            },
            _ => false,
        };
        if bad {
            assert(unsupported_decl(decls@[i as int]));
            return true;
        }
        i = i + 1;
    }
    false
}


/// Positions covered by the deleted spans contribute nothing: the output
/// offset does not advance across a wholly covered stretch.
pub proof fn lemma_covered_range_elided(src: Seq<u8>, spans: Seq<ByteRange>, a: int, b: int)
    requires
        0 <= a <= b <= src.len(),
        forall|k: int| a <= k < b ==> covered(spans, k),
    ensures
        retained_offset(src, spans, b) == retained_offset(src, spans, a),
    decreases b - a,
{
    if a < b {
        lemma_covered_range_elided(src, spans, a, b - 1);
    }
}

/// Earlier prefixes of the selection persist as the scan proceeds.
proof fn lemma_selected_upto_prefix(
    decls: Seq<Decl>,
    sn: Seq<Seq<u8>>,
    fnn: Seq<Seq<u8>>,
    tn: Seq<Seq<u8>>,
    inn: Seq<Seq<u8>>,
    n: int,
    m: int,
)
    requires
        0 <= n <= m,
    ensures
        selected_upto(decls, sn, fnn, tn, inn, n).len() <= selected_upto(
            decls,
            sn,
            fnn,
            tn,
            inn,
            m,
        ).len(),
        forall|j: int|
            0 <= j < selected_upto(decls, sn, fnn, tn, inn, n).len() ==> #[trigger] selected_upto(
                decls,
                sn,
                fnn,
                tn,
                inn,
                m,
            )[j] == selected_upto(decls, sn, fnn, tn, inn, n)[j],
    decreases m - n,
{
    if n < m {
        lemma_selected_upto_prefix(decls, sn, fnn, tn, inn, n, m - 1);
    }
}

/// Every span a declaration contributes is its own whole span.
proof fn lemma_decl_selected_spans(
    d: Decl,
    sn: Seq<Seq<u8>>,
    fnn: Seq<Seq<u8>>,
    tn: Seq<Seq<u8>>,
    inn: Seq<Seq<u8>>,
    j: int,
)
    requires
        0 <= j < decl_selected(d, sn, fnn, tn, inn).len(),
    ensures
        decl_selected(d, sn, fnn, tn, inn)[j] == d.span,
{
}

/// A declaration the selection rules fire on has its whole span covered by
/// the selected spans: its bytes are deleted.
pub proof fn lemma_selected_covers(
    decls: Seq<Decl>,
    sn: Seq<Seq<u8>>,
    fnn: Seq<Seq<u8>>,
    tn: Seq<Seq<u8>>,
    inn: Seq<Seq<u8>>,
    i: int,
    k: int,
)
    requires
        0 <= i < decls.len(),
        decl_selected(decls[i], sn, fnn, tn, inn).len() >= 1,
        decls[i].span.covers(k),
    ensures
        covered(selected(decls, sn, fnn, tn, inn), k),
{
    let before = selected_upto(decls, sn, fnn, tn, inn, i);
    let after = selected_upto(decls, sn, fnn, tn, inn, i + 1);
    lemma_decl_selected_spans(decls[i], sn, fnn, tn, inn, 0);
    assert(after[before.len() as int] == decls[i].span);
    lemma_selected_upto_prefix(decls, sn, fnn, tn, inn, i + 1, decls.len() as int);
    let sel = selected(decls, sn, fnn, tn, inn);
    assert(sel[before.len() as int] == decls[i].span);
    assert(sel[before.len() as int].covers(k));
}

/// Surviving bytes keep their original order: the output offset is monotonic
/// in the input position.
pub proof fn lemma_retained_offset_monotonic(
    src: Seq<u8>,
    spans: Seq<ByteRange>,
    a: int,
    b: int,
)
    requires
        0 <= a <= b <= src.len(),
    ensures
        retained_offset(src, spans, a) <= retained_offset(src, spans, b),
{
    lemma_retained_upto_prefix(src, spans, a, b);
}

} // verus!
