use vstd::prelude::*;

use crate::bytes::{bytes_eq, push_all};
use crate::correlate::{
    correlate, correlate_ok, dead_imports, dead_names, group_ident, has_match, import_matched,
    lemma_matched_import_recorded, lemma_matched_name_recorded, NameGroup,
};
use crate::decl::{decls_wf, Decl, DeclKind, Ident, ImportShape};
use crate::span::{covered, ByteRange};
use crate::diag::{collect_dead_code_spans, dead_first_spans, spans_present, DiagRec};
use crate::errors::EngineError;
use crate::prune::{
    any_unsupported, decl_selected, lemma_covered_range_elided, lemma_retained_shrinks,
    lemma_selected_covers, lemma_uncovered_range_preserved, remove_spans, retained,
    retained_offset, selected,
};

verus! {

/// What one fixpoint iteration decided: the text is already a fixpoint of
/// the pass, or one more shrunken snapshot to analyse again.
pub enum FixpointStep {
    Done(Vec<u8>),
    Continue(Vec<u8>),
}

/// The complete mathematical description of one pass over a snapshot: with
/// the given declaration list and diagnostic records, either the pass aborts
/// — a failed trip-wire, or an unsupported shape — or it deletes exactly the
/// selected dead spans.
pub open spec fn pass_spec(src: Seq<u8>, decls: Seq<Decl>, records: Seq<DiagRec>) -> Result<
    Seq<u8>,
    EngineError,
> {
    let sv = dead_first_spans(records);
    if !correlate_ok(src, decls, sv) {
        Err(EngineError::TripWire)
    } else if any_unsupported(decls) {
        Err(EngineError::Unsupported)
    } else {
        Ok(retained(src, pass_selected(decls, records)))
    }
}

/// The spans one pass resolves for deletion from the given diagnostics.
pub open spec fn pass_selected(decls: Seq<Decl>, records: Seq<DiagRec>) -> Seq<ByteRange> {
    let sv = dead_first_spans(records);
    selected(
        decls,
        dead_names(decls, sv, NameGroup::StructName),
        dead_names(decls, sv, NameGroup::FnName),
        dead_names(decls, sv, NameGroup::TraitName),
        dead_imports(decls, sv),
    )
}

/// One pruning pass: filter the diagnostic records to the two unused-code
/// predicates, correlate their spans against the declaration list, resolve
/// the dead identities to spans, and delete those spans.  `decls` must be
/// the declaration list of exactly this snapshot and `records` its
/// diagnostics: spans are only meaningful against the snapshot they were
/// computed from.
pub fn remove_dead_code_inner(src: &Vec<u8>, decls: &Vec<Decl>, records: &Vec<DiagRec>) -> (r:
    Result<Vec<u8>, EngineError>)
    requires
        decls_wf(decls@, src@.len() as nat),
        spans_present(records@),
    ensures
        match r {
            Ok(out) => pass_spec(src@, decls@, records@) == Ok::<Seq<u8>, EngineError>(out@),
            Err(e) => pass_spec(src@, decls@, records@) == Err::<Seq<u8>, EngineError>(e),
        },
{
    let spans = collect_dead_code_spans(records);
    let ds = match correlate(src, decls, &spans) {
        Ok(ds) => ds,
        Err(e) => {
            return Err(e);
        },
    };
    let dead_spans = match crate::prune::select_dead_spans(decls, &ds) {
        Ok(v) => v,
        Err(e) => {
            return Err(e);
        },
    };
    let out = remove_spans(src, &dead_spans);
    Ok(out)
}

/// One step of the fixpoint driver: run a pass, and report `Done` with the
/// unchanged text if the pass deleted nothing, else `Continue` with the
/// strictly shorter output.  The caller repeats with fresh declarations and
/// diagnostics for the new snapshot until `Done`; the strict shrink below
/// bounds the number of iterations by the length of the text.
pub fn remove_dead_code(src: Vec<u8>, decls: &Vec<Decl>, records: &Vec<DiagRec>) -> (r: Result<
    FixpointStep,
    EngineError,
>)
    requires
        decls_wf(decls@, src@.len() as nat),
        spans_present(records@),
    ensures
        match r {
            Ok(step) => match step {
                FixpointStep::Done(s) => s@ == src@ && pass_spec(src@, decls@, records@)
                    == Ok::<Seq<u8>, EngineError>(src@),
                FixpointStep::Continue(s) => pass_spec(src@, decls@, records@) == Ok::<
                    Seq<u8>,
                    EngineError,
                >(s@) && s@ != src@ && s@.len() < src@.len(),
            },
            Err(e) => pass_spec(src@, decls@, records@) == Err::<Seq<u8>, EngineError>(e),
        },
{
    let out = match remove_dead_code_inner(&src, decls, records) {
        Ok(out) => out,
        Err(e) => {
            return Err(e);
        },
    };
    if bytes_eq(&out, &src) {
        proof {
            assert(out@ =~= src@);
        }
        Ok(FixpointStep::Done(src))
    } else {
        proof {
            let sel = pass_selected(decls@, records@);
            assert(out@ == retained(src@, sel));
            lemma_retained_shrinks(src@, sel);
        }
        Ok(FixpointStep::Continue(out))
    }
}

/// Monotonic shrink: a successful pass never lengthens the text, and a pass
/// that changed anything strictly shortened it.  The fixpoint driver
/// therefore terminates: every `Continue` strictly decreases the length,
/// which cannot drop below zero.
pub proof fn lemma_monotonic_shrink(
    src: Seq<u8>,
    decls: Seq<Decl>,
    records: Seq<DiagRec>,
    out: Seq<u8>,
)
    requires
        pass_spec(src, decls, records) == Ok::<Seq<u8>, EngineError>(out),
    ensures
        out.len() <= src.len(),
        out != src ==> out.len() < src.len(),
{
    let sel = pass_selected(decls, records);
    assert(out == retained(src, sel));
    lemma_retained_shrinks(src, sel);
}


/// What survives, survives verbatim: a stretch of the snapshot that no
/// selected span touches reappears in a successful pass's output
/// contiguously and unchanged, at the offset given by the bytes surviving
/// before it.  Declarations the diagnostics leave alive — among them one
/// referenced only from inside an inlined namespace block — are therefore
/// retained byte for byte.
pub proof fn lemma_pass_preserves_uncovered(
    src: Seq<u8>,
    decls: Seq<Decl>,
    records: Seq<DiagRec>,
    out: Seq<u8>,
    a: int,
    b: int,
)
    requires
        pass_spec(src, decls, records) == Ok::<Seq<u8>, EngineError>(out),
        0 <= a <= b <= src.len(),
        forall|k: int| a <= k < b ==> !covered(pass_selected(decls, records), k),
    ensures
        retained_offset(src, pass_selected(decls, records), b) == retained_offset(
            src,
            pass_selected(decls, records),
            a,
        ) + (b - a),
        out.subrange(
            retained_offset(src, pass_selected(decls, records), a),
            retained_offset(src, pass_selected(decls, records), a) + (b - a),
        ) == src.subrange(a, b),
{
    lemma_uncovered_range_preserved(src, pass_selected(decls, records), a, b);
}

/// A matched named declaration is deleted whole: when a retained
/// diagnostic's span equals the declaration's name span, none of the
/// declaration's bytes survives a successful pass — the output offset does
/// not advance across its span.  One pass removes exactly what the
/// diagnostics report; a declaration that only becomes dead through such a
/// removal waits for a later iteration.
pub proof fn lemma_pass_deletes_matched_named(
    src: Seq<u8>,
    decls: Seq<Decl>,
    records: Seq<DiagRec>,
    out: Seq<u8>,
    g: NameGroup,
    i: int,
    id: Ident,
)
    requires
        pass_spec(src, decls, records) == Ok::<Seq<u8>, EngineError>(out),
        decls_wf(decls, src.len()),
        0 <= i < decls.len(),
        group_ident(decls[i], g) == Some(id),
        has_match(dead_first_spans(records), id.span),
    ensures
        retained_offset(src, pass_selected(decls, records), decls[i].span.end as int)
            == retained_offset(src, pass_selected(decls, records), decls[i].span.start as int),
{
    let sv = dead_first_spans(records);
    lemma_matched_name_recorded(decls, sv, g, i, id);
    lemma_decl_span_elided(src, decls, records, i);
}

/// Scenario law: a dead struct takes its implementation blocks with it.
/// When a retained diagnostic matches a struct's name span, the struct's
/// declaration and every implementation block whose target type bears that
/// name contribute no byte to a successful pass's output.
pub proof fn lemma_pass_deletes_dead_struct_and_impls(
    src: Seq<u8>,
    decls: Seq<Decl>,
    records: Seq<DiagRec>,
    out: Seq<u8>,
    i: int,
    id: Ident,
    j: int,
)
    requires
        pass_spec(src, decls, records) == Ok::<Seq<u8>, EngineError>(out),
        decls_wf(decls, src.len()),
        0 <= i < decls.len(),
        group_ident(decls[i], NameGroup::StructName) == Some(id),
        has_match(dead_first_spans(records), id.span),
        0 <= j < decls.len(),
        decls[j].kind matches DeclKind::ImplDecl { self_path: Some(p), .. } && p.last@
            == id.text@,
    ensures
        retained_offset(src, pass_selected(decls, records), decls[i].span.end as int)
            == retained_offset(src, pass_selected(decls, records), decls[i].span.start as int),
        retained_offset(src, pass_selected(decls, records), decls[j].span.end as int)
            == retained_offset(src, pass_selected(decls, records), decls[j].span.start as int),
{
    let sv = dead_first_spans(records);
    lemma_pass_deletes_matched_named(src, decls, records, out, NameGroup::StructName, i, id);
    lemma_matched_name_recorded(decls, sv, NameGroup::StructName, i, id);
    lemma_decl_span_elided(src, decls, records, j);
}

/// The implemented trait's death alone also suffices: an implementation
/// block whose trait path bears a matched trait's name contributes no byte
/// to a successful pass's output.
pub proof fn lemma_pass_deletes_impl_of_dead_trait(
    src: Seq<u8>,
    decls: Seq<Decl>,
    records: Seq<DiagRec>,
    out: Seq<u8>,
    i: int,
    id: Ident,
    j: int,
)
    requires
        pass_spec(src, decls, records) == Ok::<Seq<u8>, EngineError>(out),
        decls_wf(decls, src.len()),
        0 <= i < decls.len(),
        group_ident(decls[i], NameGroup::TraitName) == Some(id),
        has_match(dead_first_spans(records), id.span),
        0 <= j < decls.len(),
        decls[j].kind matches DeclKind::ImplDecl { trait_path: Some(p), .. } && p.last@
            == id.text@,
    ensures
        retained_offset(src, pass_selected(decls, records), decls[j].span.end as int)
            == retained_offset(src, pass_selected(decls, records), decls[j].span.start as int),
{
    let sv = dead_first_spans(records);
    lemma_matched_name_recorded(decls, sv, NameGroup::TraitName, i, id);
    lemma_decl_span_elided(src, decls, records, j);
}

/// A matched import is deleted whole: when a retained diagnostic matches
/// one of an import's path node spans, the whole import statement
/// contributes no byte to a successful pass's output.  After the test-only
/// subtree is removed, an import used only there is exactly such an import.
pub proof fn lemma_pass_deletes_matched_import(
    src: Seq<u8>,
    decls: Seq<Decl>,
    records: Seq<DiagRec>,
    out: Seq<u8>,
    i: int,
    node_spans: Seq<ByteRange>,
    terminal: Seq<u8>,
)
    requires
        pass_spec(src, decls, records) == Ok::<Seq<u8>, EngineError>(out),
        decls_wf(decls, src.len()),
        0 <= i < decls.len(),
        decls[i].kind matches DeclKind::ImportDecl(ImportShape::PathShape {
            node_spans: ns,
            terminal: t,
        }) && ns@ == node_spans && t@ == terminal,
        import_matched(node_spans, dead_first_spans(records)),
    ensures
        retained_offset(src, pass_selected(decls, records), decls[i].span.end as int)
            == retained_offset(src, pass_selected(decls, records), decls[i].span.start as int),
{
    let sv = dead_first_spans(records);
    lemma_matched_import_recorded(decls, sv, i, node_spans, terminal);
    lemma_decl_span_elided(src, decls, records, i);
}

/// A declaration the selection rules fire on contributes no byte to the
/// output: the shared final step of the deletion laws.
proof fn lemma_decl_span_elided(src: Seq<u8>, decls: Seq<Decl>, records: Seq<DiagRec>, i: int)
    requires
        decls_wf(decls, src.len()),
        0 <= i < decls.len(),
        ({
            let sv = dead_first_spans(records);
            decl_selected(
                decls[i],
                dead_names(decls, sv, NameGroup::StructName),
                dead_names(decls, sv, NameGroup::FnName),
                dead_names(decls, sv, NameGroup::TraitName),
                dead_imports(decls, sv),
            ).len() >= 1
        }),
    ensures
        retained_offset(src, pass_selected(decls, records), decls[i].span.end as int)
            == retained_offset(src, pass_selected(decls, records), decls[i].span.start as int),
{
    let sv = dead_first_spans(records);
    let sn = dead_names(decls, sv, NameGroup::StructName);
    let fnn = dead_names(decls, sv, NameGroup::FnName);
    let tn = dead_names(decls, sv, NameGroup::TraitName);
    let inn = dead_imports(decls, sv);
    assert(crate::decl::decl_wf(decls[i], src.len()));
    let a = decls[i].span.start as int;
    let b = decls[i].span.end as int;
    assert forall|k: int| a <= k < b implies covered(pass_selected(decls, records), k) by {
        assert(decls[i].span.covers(k));
        lemma_selected_covers(decls, sn, fnn, tn, inn, i, k);
    }
    lemma_covered_range_elided(src, pass_selected(decls, records), a, b);
}

/// What the external collaborators report for one snapshot: its declaration
/// list and its diagnostic records.
pub ghost struct Analysis {
    pub decls: Seq<Decl>,
    pub records: Seq<DiagRec>,
}

/// The whole driver loop as a mathematical function of the text and the
/// stream of analyses it is fed, one per iteration: run a pass, stop with
/// the unchanged text at a fixpoint, stop with the error when a pass aborts,
/// and otherwise continue with the shrunken text.  `None` means the stream
/// was exhausted before the loop stopped; the termination law below shows a
/// bounded stream always suffices.  The unverified shell instantiates the
/// stream one compiler round trip at a time.
pub open spec fn drive_spec(src: Seq<u8>, oracle: Seq<Analysis>) -> Option<
    Result<Seq<u8>, EngineError>,
>
    decreases oracle.len(),
{
    if oracle.len() == 0 {
        None
    } else {
        match pass_spec(src, oracle[0].decls, oracle[0].records) {
            Ok(out) => if out == src {
                Some(Ok(src))
            } else {
                drive_spec(out, oracle.drop_first())
            },
            Err(e) => Some(Err(e)),
        }
    }
}

/// The loop terminates: because every continuing pass strictly shortens the
/// text, a stream of one more analysis than the text has bytes always
/// reaches the fixpoint or an error.
pub proof fn lemma_drive_terminates(src: Seq<u8>, oracle: Seq<Analysis>)
    requires
        oracle.len() > src.len(),
    ensures
        drive_spec(src, oracle) is Some,
    decreases oracle.len(),
{
    match pass_spec(src, oracle[0].decls, oracle[0].records) {
        Ok(out) => {
            if out != src {
                lemma_monotonic_shrink(src, oracle[0].decls, oracle[0].records, out);
                lemma_drive_terminates(out, oracle.drop_first());
            }
        },
        Err(_) => {},
    }
}

/// Whatever text the driver returns is a fixpoint: some analysis in the
/// stream leaves it byte-identical under a full pass.
pub proof fn lemma_drive_result_is_fixpoint(src: Seq<u8>, oracle: Seq<Analysis>, out: Seq<u8>)
    requires
        drive_spec(src, oracle) == Some(Ok::<Seq<u8>, EngineError>(out)),
    ensures
        exists|k: int|
            0 <= k < oracle.len() && pass_spec(out, (#[trigger] oracle[k]).decls, oracle[k].records)
                == Ok::<Seq<u8>, EngineError>(out),
    decreases oracle.len(),
{
    match pass_spec(src, oracle[0].decls, oracle[0].records) {
        Ok(mid) => {
            if mid == src {
                assert(pass_spec(out, oracle[0].decls, oracle[0].records) == Ok::<
                    Seq<u8>,
                    EngineError,
                >(out));
            } else {
                lemma_drive_result_is_fixpoint(mid, oracle.drop_first(), out);
                let k = choose|k: int|
                    0 <= k < oracle.drop_first().len() && pass_spec(
                        out,
                        (#[trigger] oracle.drop_first()[k]).decls,
                        oracle.drop_first()[k].records,
                    ) == Ok::<Seq<u8>, EngineError>(out);
                assert(oracle[k + 1] == oracle.drop_first()[k]);
            }
        },
        Err(_) => {},
    }
}

/// Idempotence: re-running the pipeline on its own output yields the output
/// itself, byte-identical, in a single iteration — provided the first fresh
/// analysis behaves as the one that certified the fixpoint, which the
/// collaborators' determinism for identical input guarantees.
pub proof fn lemma_drive_idempotent(
    out: Seq<u8>,
    decls: Seq<Decl>,
    records: Seq<DiagRec>,
    again: Seq<Analysis>,
)
    requires
        pass_spec(out, decls, records) == Ok::<Seq<u8>, EngineError>(out),
        again.len() > 0,
        again[0].decls == decls,
        again[0].records == records,
    ensures
        drive_spec(out, again) == Some(Ok::<Seq<u8>, EngineError>(out)),
{
}

/// The byte string `mod `.
pub open spec fn mod_open() -> Seq<u8> {
    seq![109u8, 111u8, 100u8, 32u8]
}

/// The byte string ` {` followed by a line feed.
pub open spec fn brace_open() -> Seq<u8> {
    seq![32u8, 123u8, 10u8]
}

/// A line feed followed by `}`.
pub open spec fn brace_close() -> Seq<u8> {
    seq![10u8, 125u8]
}

/// A library's contents wrapped as a namespace-scoped block under its name.
pub open spec fn wrapped_module(name: Seq<u8>, contents: Seq<u8>) -> Seq<u8> {
    mod_open() + name + brace_open() + contents + brace_close()
}

/// Wraps one library's contents as a nested namespace block.
pub fn wrap_module(name: &Vec<u8>, contents: &Vec<u8>) -> (out: Vec<u8>)
    ensures
        out@ == wrapped_module(name@, contents@),
{
    let mut out: Vec<u8> = Vec::new();
    out.push(109);
    out.push(111);
    out.push(100);
    out.push(32);
    proof {
        assert(out@ =~= mod_open());
    }
    push_all(&mut out, name);
    out.push(32);
    out.push(123);
    out.push(10);
    proof {
        assert(out@ =~= mod_open() + name@ + brace_open());
    }
    push_all(&mut out, contents);
    out.push(10);
    out.push(125);
    proof {
        assert(out@ =~= wrapped_module(name@, contents@));
    }
    out
}

/// The concatenation of the first `n` libraries, each wrapped as a module.
pub open spec fn expanded_upto(libs: Seq<(Vec<u8>, Vec<u8>)>, n: int) -> Seq<u8>
    decreases n,
{
    if n <= 0 {
        Seq::empty()
    } else {
        expanded_upto(libs, n - 1) + wrapped_module(libs[n - 1].0@, libs[n - 1].1@)
    }
}

/// Concatenates every library, wrapped as a nested namespace block, ahead of
/// the main source, producing the single unit the analysis runs on.
pub fn expand_libs(libs: &Vec<(Vec<u8>, Vec<u8>)>, src: &Vec<u8>) -> (out: Vec<u8>)
    ensures
        out@ == expanded_upto(libs@, libs@.len() as int) + src@,
{
    let mut out: Vec<u8> = Vec::new();
    let mut i: usize = 0;
    while i < libs.len()
        invariant
            i <= libs@.len(),
            out@ == expanded_upto(libs@, i as int),
        decreases libs@.len() - i,
    {
        let w = wrap_module(&libs[i].0, &libs[i].1);
        push_all(&mut out, &w);
        proof {
            assert(out@ =~= expanded_upto(libs@, i as int + 1));
        }
        i = i + 1;
    }
    push_all(&mut out, src);
    out
}

} // verus!
