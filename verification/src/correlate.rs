use vstd::prelude::*;

use crate::bytes::{copy_bytes, name_list_contains, names_contain, views_of};
use crate::decl::{decls_wf, Decl, DeclKind, Ident, ImportShape};
use crate::diag::{span_views, DiagSpanRec, SpanView};
use crate::errors::EngineError;
use crate::span::ByteRange;

verus! {

/// The three groups of named declarations that diagnostics can kill.
#[derive(Clone, Copy, PartialEq, Eq, Structural, Debug)]
pub enum NameGroup {
    StructName,
    FnName,
    TraitName,
}

/// The set of dead declaration identities one iteration discovered, one
/// deduplicated name list per declaration group, plus the imported names
/// (terminal path segments) of dead imports.
pub struct DeadSet {
    pub structs: Vec<Vec<u8>>,
    pub fns: Vec<Vec<u8>>,
    pub traits: Vec<Vec<u8>>,
    pub imports: Vec<Vec<u8>>,
}

/// The index of the first diagnostic span whose range equals `r`, or `-1`.
pub open spec fn first_match(sv: Seq<SpanView>, r: ByteRange) -> int
    decreases sv.len(),
{
    if sv.len() == 0 {
        -1
    } else if sv[0].range == r {
        0
    } else {
        let k = first_match(sv.drop_first(), r);
        if k < 0 {
            -1
        } else {
            k + 1
        }
    }
}

/// Whether some diagnostic span's range equals `r` exactly.  Exact equality,
/// not overlap: diagnostics point at the identifier token alone, and
/// containment would false-match unrelated nested identifiers.
pub open spec fn has_match(sv: Seq<SpanView>, r: ByteRange) -> bool {
    first_match(sv, r) >= 0
}

/// `first_match` is the unique position with no equal range before it.
pub proof fn lemma_first_match_char(sv: Seq<SpanView>, r: ByteRange, j: int)
    requires
        0 <= j <= sv.len(),
        forall|k: int| 0 <= k < j ==> !((#[trigger] sv[k]).range == r),
        j < sv.len() ==> sv[j].range == r,
    ensures
        first_match(sv, r) == if j < sv.len() {
            j
        } else {
            -1
        },
    decreases j,
{
    if sv.len() == 0 {
    } else if sv[0].range == r {
        assert(j == 0);
    } else {
        assert(j >= 1);
        lemma_first_match_char(sv.drop_first(), r, j - 1);
    }
}

/// The correctness trip-wire for one matched name: the snapshot's bytes at
/// the name span are the identifier itself, and so is the highlighted slice
/// of the diagnostic's own rendered line (its bounds are one-based).
pub open spec fn tripwire_ok(src: Seq<u8>, name: Seq<u8>, nspan: ByteRange, s: SpanView) -> bool {
    &&& src.subrange(nspan.start as int, nspan.end as int) == name
    &&& 1 <= s.hl_start
    &&& s.hl_start <= s.hl_end
    &&& s.hl_end - 1 <= s.line.len()
    &&& s.line.subrange(s.hl_start - 1, s.hl_end - 1) == name
}

/// The identifier of a declaration if it belongs to the given group.
pub open spec fn group_ident(d: Decl, g: NameGroup) -> Option<Ident> {
    match d.kind {
        DeclKind::StructDecl(id) => if g == NameGroup::StructName {
            Some(id)
        } else {
            None
        },
        DeclKind::FnDecl(id) => if g == NameGroup::FnName {
            Some(id)
        } else {
            None
        },
        DeclKind::TraitDecl(id) => if g == NameGroup::TraitName {
            Some(id)
        } else {
            None
        },
        _ => None,
    }
}

/// The identifier of a named declaration, whichever group it belongs to.
pub open spec fn named_of(d: Decl) -> Option<Ident> {
    match d.kind {
        DeclKind::StructDecl(id) => Some(id),
        DeclKind::FnDecl(id) => Some(id),
        DeclKind::TraitDecl(id) => Some(id),
        _ => None,
    }
}

/// Trip-wire condition for one name: if some diagnostic span matches it, the
/// first matching span must carry the identifier's own text.
pub open spec fn named_ok(src: Seq<u8>, sv: Seq<SpanView>, id: Ident) -> bool {
    has_match(sv, id.span) ==> tripwire_ok(src, id.text@, id.span, sv[first_match(sv, id.span)])
}

/// Trip-wire condition for one declaration.
pub open spec fn decl_tripwire_ok(src: Seq<u8>, d: Decl, sv: Seq<SpanView>) -> bool {
    match named_of(d) {
        Some(id) => named_ok(src, sv, id),
        None => true,
    }
}

/// No matched name anywhere fails the trip-wire.
pub open spec fn correlate_ok(src: Seq<u8>, decls: Seq<Decl>, sv: Seq<SpanView>) -> bool {
    forall|i: int| 0 <= i < decls.len() ==> decl_tripwire_ok(src, #[trigger] decls[i], sv)
}

/// One deduplicating step: add the name if its span is matched and it is
/// not already recorded.
pub open spec fn named_step(acc: Seq<Seq<u8>>, sv: Seq<SpanView>, id: Ident) -> Seq<Seq<u8>> {
    if has_match(sv, id.span) && !names_contain(acc, id.text@) {
        acc.push(id.text@)
    } else {
        acc
    }
}

/// The dead names of one group among the first `n` declarations, first
/// occurrence kept, duplicates dropped.
pub open spec fn dead_names_upto(
    decls: Seq<Decl>,
    sv: Seq<SpanView>,
    g: NameGroup,
    n: int,
) -> Seq<Seq<u8>>
    decreases n,
{
    if n <= 0 {
        Seq::empty()
    } else {
        let prev = dead_names_upto(decls, sv, g, n - 1);
        match group_ident(decls[n - 1], g) {
            Some(id) => named_step(prev, sv, id),
            None => prev,
        }
    }
}

/// The dead names of one group over the whole declaration list.
pub open spec fn dead_names(decls: Seq<Decl>, sv: Seq<SpanView>, g: NameGroup) -> Seq<Seq<u8>> {
    dead_names_upto(decls, sv, g, decls.len() as int)
}

/// Whether some diagnostic span matches one of an import's path node spans.
pub open spec fn import_matched(node_spans: Seq<ByteRange>, sv: Seq<SpanView>) -> bool {
    exists|i: int| 0 <= i < node_spans.len() && has_match(sv, #[trigger] node_spans[i])
}

/// The imported names of the dead imports among the first `n` declarations:
/// an import whose path is matched contributes its terminal segment, first
/// occurrence kept, duplicates dropped.
pub open spec fn dead_imports_upto(decls: Seq<Decl>, sv: Seq<SpanView>, n: int) -> Seq<Seq<u8>>
    decreases n,
{
    if n <= 0 {
        Seq::empty()
    } else {
        let prev = dead_imports_upto(decls, sv, n - 1);
        match decls[n - 1].kind {
            DeclKind::ImportDecl(shape) => match shape {
                ImportShape::PathShape { node_spans, terminal } => if import_matched(
                    node_spans@,
                    sv,
                ) && !names_contain(prev, terminal@) {
                    prev.push(terminal@)
                } else {
                    prev
                },
                ImportShape::OtherShape => prev,
            },
            _ => prev,
        }
    }
}

/// The imported names of the dead imports over the whole declaration list.
pub open spec fn dead_imports(decls: Seq<Decl>, sv: Seq<SpanView>) -> Seq<Seq<u8>> {
    dead_imports_upto(decls, sv, decls.len() as int)
}


/// Once recorded, a dead name stays recorded as the scan proceeds.
proof fn lemma_dead_names_monotone(
    decls: Seq<Decl>,
    sv: Seq<SpanView>,
    g: NameGroup,
    x: Seq<u8>,
    n: int,
    m: int,
)
    requires
        0 <= n <= m,
        names_contain(dead_names_upto(decls, sv, g, n), x),
    ensures
        names_contain(dead_names_upto(decls, sv, g, m), x),
    decreases m - n,
{
    if n < m {
        lemma_dead_names_monotone(decls, sv, g, x, n, m - 1);
        let prev = dead_names_upto(decls, sv, g, m - 1);
        let j = choose|j: int| 0 <= j < prev.len() && prev[j] == x;
        assert(dead_names_upto(decls, sv, g, m)[j] == x);
    }
}

/// A name whose span a diagnostic matches stands among the dead names.
pub proof fn lemma_matched_name_recorded(
    decls: Seq<Decl>,
    sv: Seq<SpanView>,
    g: NameGroup,
    i: int,
    id: Ident,
)
    requires
        0 <= i < decls.len(),
        group_ident(decls[i], g) == Some(id),
        has_match(sv, id.span),
    ensures
        names_contain(dead_names(decls, sv, g), id.text@),
{
    let prev = dead_names_upto(decls, sv, g, i);
    let here = dead_names_upto(decls, sv, g, i + 1);
    if names_contain(prev, id.text@) {
        lemma_dead_names_monotone(decls, sv, g, id.text@, i, i + 1);
    } else {
        assert(here == prev.push(id.text@));
        assert(here[prev.len() as int] == id.text@);
    }
    lemma_dead_names_monotone(decls, sv, g, id.text@, i + 1, decls.len() as int);
}

/// Once recorded, a dead imported name stays recorded as the scan proceeds.
proof fn lemma_dead_imports_monotone(
    decls: Seq<Decl>,
    sv: Seq<SpanView>,
    x: Seq<u8>,
    n: int,
    m: int,
)
    requires
        0 <= n <= m,
        names_contain(dead_imports_upto(decls, sv, n), x),
    ensures
        names_contain(dead_imports_upto(decls, sv, m), x),
    decreases m - n,
{
    if n < m {
        lemma_dead_imports_monotone(decls, sv, x, n, m - 1);
        let prev = dead_imports_upto(decls, sv, m - 1);
        let j = choose|j: int| 0 <= j < prev.len() && prev[j] == x;
        assert(dead_imports_upto(decls, sv, m)[j] == x);
    }
}

/// An import whose path a diagnostic matches has its imported name among
/// the dead imports.
pub proof fn lemma_matched_import_recorded(
    decls: Seq<Decl>,
    sv: Seq<SpanView>,
    i: int,
    node_spans: Seq<ByteRange>,
    terminal: Seq<u8>,
)
    requires
        0 <= i < decls.len(),
        decls[i].kind matches DeclKind::ImportDecl(ImportShape::PathShape {
            node_spans: ns,
            terminal: t,
        }) && ns@ == node_spans && t@ == terminal,
        import_matched(node_spans, sv),
    ensures
        names_contain(dead_imports(decls, sv), terminal),
{
    let prev = dead_imports_upto(decls, sv, i);
    let here = dead_imports_upto(decls, sv, i + 1);
    if names_contain(prev, terminal) {
        lemma_dead_imports_monotone(decls, sv, terminal, i, i + 1);
    } else {
        assert(here == prev.push(terminal));
        assert(here[prev.len() as int] == terminal);
    }
    lemma_dead_imports_monotone(decls, sv, terminal, i + 1, decls.len() as int);
}

/// Matches every declaration name span and every import path node span
/// against the diagnostics' primary spans, exactly, and returns the
/// deduplicated dead identities.  Fails loudly — never silently — when a
/// matched span's text is not the declaration's own identifier.
pub fn correlate(src: &Vec<u8>, decls: &Vec<Decl>, spans: &Vec<DiagSpanRec>) -> (r: Result<
    DeadSet,
    EngineError,
>)
    requires
        decls_wf(decls@, src@.len() as nat),
    ensures
        ({
            let sv = span_views(spans@);
            match r {
                Ok(ds) => correlate_ok(src@, decls@, sv) && views_of(ds.structs@) == dead_names(
                    decls@,
                    sv,
                    NameGroup::StructName,
                ) && views_of(ds.fns@) == dead_names(decls@, sv, NameGroup::FnName) && views_of(
                    ds.traits@,
                ) == dead_names(decls@, sv, NameGroup::TraitName) && views_of(ds.imports@)
                    == dead_imports(decls@, sv),
                Err(e) => e == EngineError::TripWire && !correlate_ok(src@, decls@, sv),
            }
        }),
{
    let ghost sv = span_views(spans@);
    let mut structs: Vec<Vec<u8>> = Vec::new();
    let mut fns: Vec<Vec<u8>> = Vec::new();
    let mut traits: Vec<Vec<u8>> = Vec::new();
    let mut imports: Vec<Vec<u8>> = Vec::new();
    let mut i: usize = 0;
    while i < decls.len()
        invariant
            i <= decls@.len(),
            decls_wf(decls@, src@.len() as nat),
            sv == span_views(spans@),
            forall|k: int| 0 <= k < i ==> decl_tripwire_ok(src@, #[trigger] decls@[k], sv),
            views_of(structs@) == dead_names_upto(decls@, sv, NameGroup::StructName, i as int),
            views_of(fns@) == dead_names_upto(decls@, sv, NameGroup::FnName, i as int),
            views_of(traits@) == dead_names_upto(decls@, sv, NameGroup::TraitName, i as int),
            views_of(imports@) == dead_imports_upto(decls@, sv, i as int),
        decreases decls@.len() - i,
    {
        let d = &decls[i];
        proof {
            assert(crate::decl::decl_wf(decls@[i as int], src@.len() as nat));
        }
        match &d.kind {
            DeclKind::StructDecl(id) => {
                if !scan_named(src, spans, id, &mut structs) {
                    proof {
                        assert(!decl_tripwire_ok(src@, decls@[i as int], sv));
                    }
                    return Err(EngineError::TripWire);
                }
            },
            DeclKind::FnDecl(id) => {
                if !scan_named(src, spans, id, &mut fns) {
                    proof {
                        assert(!decl_tripwire_ok(src@, decls@[i as int], sv));
                    }
                    return Err(EngineError::TripWire);
                }
            },
            DeclKind::TraitDecl(id) => {
                if !scan_named(src, spans, id, &mut traits) {
                    proof {
                        assert(!decl_tripwire_ok(src@, decls@[i as int], sv));
                    }
                    return Err(EngineError::TripWire);
                }
            },
            DeclKind::ImplDecl { .. } => {},
            DeclKind::ImportDecl(shape) => {
                match shape {
                    ImportShape::PathShape { node_spans, terminal } => {
                        if any_node_matched(spans, node_spans) {
                            if !name_list_contains(&imports, terminal) {
                                let ghost pre = imports@;
                                imports.push(copy_bytes(terminal));
                                proof {
                                    assert(views_of(imports@) =~= views_of(pre).push(
                                        terminal@,
                                    ));
                                }
                            }
                        }
                    },
                    ImportShape::OtherShape => {},
                }
            },
            DeclKind::ModuleDecl(_) => {},
        }
        proof {
            assert(decl_tripwire_ok(src@, decls@[i as int], sv));
        }
        i = i + 1;
    }
    Ok(DeadSet { structs, fns, traits, imports })
}

/// Scans one named declaration: if a diagnostic span matches its name span,
/// checks the trip-wire and records the name once.  Returns false exactly
/// when the trip-wire fails.
fn scan_named(
    src: &Vec<u8>,
    spans: &Vec<DiagSpanRec>,
    id: &Ident,
    acc: &mut Vec<Vec<u8>>,
) -> (ok: bool)
    requires
        id.span.wf(src@.len() as nat),
    ensures
        ok == named_ok(src@, span_views(spans@), *id),
        ok ==> views_of(final(acc)@) == named_step(views_of(old(acc)@), span_views(spans@), *id),
        !ok ==> final(acc)@ == old(acc)@,
{
    let ghost sv = span_views(spans@);
    match find_first_match(spans, id.span) {
        Option::Some(j) => {
            if !check_tripwire(src, id, &spans[j]) {
                proof {
                    assert(sv[j as int] == spans@[j as int]@);
                }
                return false;
            }
            proof {
                assert(sv[j as int] == spans@[j as int]@);
                assert(named_ok(src@, sv, *id));
            }
            if !name_list_contains(acc, &id.text) {
                let ghost pre = acc@;
                acc.push(copy_bytes(&id.text));
                proof {
                    assert(views_of(acc@) =~= views_of(pre).push(id.text@));
                }
            }
            true
        },
        Option::None => {
            true
        },
    }
}

/// Decides whether any of an import's path node spans is matched by a
/// diagnostic.  Imports carry no trip-wire: the diagnostics highlight
/// paths, not single identifiers.
fn any_node_matched(spans: &Vec<DiagSpanRec>, node_spans: &Vec<ByteRange>) -> (r: bool)
    ensures
        r == import_matched(node_spans@, span_views(spans@)),
{
    let ghost sv = span_views(spans@);
    let mut k: usize = 0;
    while k < node_spans.len()
        invariant
            k <= node_spans@.len(),
            sv == span_views(spans@),
            forall|m: int| 0 <= m < k ==> !has_match(sv, #[trigger] node_spans@[m]),
        decreases node_spans@.len() - k,
    {
        let matched = match find_first_match(spans, node_spans[k]) {
            Option::Some(_) => true,
            Option::None => false,
        };
        if matched {
            assert(has_match(sv, node_spans@[k as int]));
            return true;
        }
        k = k + 1;
    }
    false
}

/// Finds the first diagnostic span whose range equals `r`.
fn find_first_match(spans: &Vec<DiagSpanRec>, r: ByteRange) -> (res: Option<usize>)
    ensures
        ({
            let sv = span_views(spans@);
            match res {
                Some(j) => j < spans@.len() && first_match(sv, r) == j as int,
                None => first_match(sv, r) == -1,
            }
        }),
{
    let ghost sv = span_views(spans@);
    let mut j: usize = 0;
    while j < spans.len()
        invariant
            j <= spans@.len(),
            sv == span_views(spans@),
            forall|k: int| 0 <= k < j ==> !((#[trigger] sv[k]).range == r),
        decreases spans@.len() - j,
    {
        if spans[j].range == r {
            proof {
                assert(sv[j as int].range == r);
                lemma_first_match_char(sv, r, j as int);
            }
            return Some(j);
        }
        proof {
            assert(sv[j as int] == spans@[j as int]@);
        }
        j = j + 1;
    }
    proof {
        lemma_first_match_char(sv, r, spans@.len() as int);
    }
    None
}

/// Decides the trip-wire for one matched name.
fn check_tripwire(src: &Vec<u8>, id: &Ident, s: &DiagSpanRec) -> (ok: bool)
    requires
        id.span.wf(src@.len() as nat),
    ensures
        ok == tripwire_ok(src@, id.text@, id.span, s@),
{
    let c1 = subrange_eq(src, id.span.start, id.span.end, &id.text);
    if !c1 {
        return false;
    }
    if !(s.hl_start >= 1 && s.hl_start <= s.hl_end && s.hl_end - 1 <= s.line.len()) {
        return false;
    }
    subrange_eq(&s.line, s.hl_start - 1, s.hl_end - 1, &id.text)
}

/// Decides whether `a[start..end]` equals `name`.
fn subrange_eq(a: &Vec<u8>, start: usize, end: usize, name: &Vec<u8>) -> (r: bool)
    requires
        start <= end <= a@.len(),
    ensures
        r == (a@.subrange(start as int, end as int) == name@),
{
    if end - start != name.len() {
        assert(a@.subrange(start as int, end as int).len() != name@.len());
        return false;
    }
    let mut k: usize = 0;
    while k < name.len()
        invariant
            k <= name@.len(),
            start <= end <= a@.len(),
            end - start == name@.len(),
            forall|m: int| 0 <= m < k ==> a@[start + m] == name@[m],
        decreases name@.len() - k,
    {
        if a[start + k] != name[k] {
            assert(a@.subrange(start as int, end as int)[k as int] != name@[k as int]);
            return false;
        }
        k = k + 1;
    }
    assert(a@.subrange(start as int, end as int) =~= name@);
    true
}

} // verus!
