use vstd::prelude::*;

use crate::span::ByteRange;

verus! {

/// An identifier token: its text and its byte span in the snapshot the
/// declaration list was built from.
pub struct Ident {
    pub text: Vec<u8>,
    pub span: ByteRange,
}

/// What a pass needs of a type or trait path that an implementation block
/// targets: how many segments it has and the text of its final segment.
pub struct PathRef {
    pub segments: usize,
    pub last: Vec<u8>,
}

/// The shape of an import's tree.  A plain path carries the spans of its
/// path nodes — each reaching from one segment to the end of the path; the
/// compiler's unused-import diagnostics point at such spans — and the text
/// of its terminal segment: the imported name, which is the import's
/// identity.  Grouped, renamed and glob imports are reported as unsupported
/// rather than silently skipped.
pub enum ImportShape {
    PathShape { node_spans: Vec<ByteRange>, terminal: Vec<u8> },
    OtherShape,
}

/// One token inside an attribute's list arguments.
pub enum MetaToken {
    IdentTok(Vec<u8>),
    OtherTok,
}

/// What the test-subtree remover needs of one attribute on a module: whether
/// it is an outer attribute, whether its path is the conditional-compilation
/// marker, and its list tokens if it has list arguments.
pub struct AttrMeta {
    pub outer: bool,
    pub cfg_path: bool,
    pub list_tokens: Option<Vec<MetaToken>>,
}

/// A top-level declaration as the locally built syntax tree reports it,
/// flattened in document order, nested namespaces included.
pub enum DeclKind {
    StructDecl(Ident),
    FnDecl(Ident),
    TraitDecl(Ident),
    ImplDecl { self_path: Option<PathRef>, trait_path: Option<PathRef> },
    ImportDecl(ImportShape),
    ModuleDecl(Vec<AttrMeta>),
}

/// A declaration node: its kind and the span of the whole declaration.
pub struct Decl {
    pub kind: DeclKind,
    pub span: ByteRange,
}

/// The byte string `test`.
pub open spec fn test_marker() -> Seq<u8> {
    seq![116u8, 101u8, 115u8, 116u8]
}

/// Whether one attribute is the recognized test-only marker: an outer
/// conditional-compilation attribute whose list arguments are exactly the
/// single identifier `test`.
pub open spec fn is_test_attr(a: AttrMeta) -> bool {
    &&& a.outer
    &&& a.cfg_path
    &&& match a.list_tokens {
        Some(ts) => ts@.len() == 1 && match ts@[0] {
            MetaToken::IdentTok(t) => t@ == test_marker(),
            MetaToken::OtherTok => false,
        },
        None => false,
    }
}

/// Whether a module carrying these attributes is a test-only module.
pub open spec fn spec_is_test_module(attrs: Seq<AttrMeta>) -> bool {
    exists|i: int| 0 <= i < attrs.len() && is_test_attr(attrs[i])
}

/// Decides whether a module's attributes mark it test-only.
pub fn is_test_module(attrs: &Vec<AttrMeta>) -> (r: bool)
    ensures
        r == spec_is_test_module(attrs@),
{
    let mut i: usize = 0;
    while i < attrs.len()
        invariant
            i <= attrs@.len(),
            forall|k: int| 0 <= k < i ==> !is_test_attr(attrs@[k]),
        decreases attrs@.len() - i,
    {
        if attr_is_test(&attrs[i]) {
            assert(is_test_attr(attrs@[i as int]));
            return true;
        }
        i = i + 1;
    }
    false
}

/// Decides `is_test_attr` for one attribute.
fn attr_is_test(a: &AttrMeta) -> (r: bool)
    ensures
        r == is_test_attr(*a),
{
    if !a.outer || !a.cfg_path {
        return false;
    }
    match &a.list_tokens {
        Option::Some(ts) => {
            if ts.len() != 1 {
                return false;
            }
            match &ts[0] {
                MetaToken::IdentTok(t) => {
                    let r = t.len() == 4 && t[0] == 116 && t[1] == 101 && t[2] == 115 && t[3]
                        == 116;
                    proof {
                        if r {
                            assert(t@ =~= test_marker());
                        } else {
                            assert(t@ != test_marker());
                        }
                    }
                    r
                },
                MetaToken::OtherTok => false,
            }
        },
        Option::None => false,
    }
}

/// Well-formedness of one declaration against a snapshot of `len` bytes:
/// every span lies inside the snapshot and every name span lies inside its
/// declaration's span.
pub open spec fn decl_wf(d: Decl, len: nat) -> bool {
    &&& d.span.wf(len)
    &&& match d.kind {
        DeclKind::StructDecl(id) => ident_in(id, d.span, len),
        DeclKind::FnDecl(id) => ident_in(id, d.span, len),
        DeclKind::TraitDecl(id) => ident_in(id, d.span, len),
        DeclKind::ImplDecl { self_path, trait_path } => {
            &&& (self_path matches Some(p) ==> p.segments >= 1)
            &&& (trait_path matches Some(p) ==> p.segments >= 1)
        },
        DeclKind::ImportDecl(shape) => match shape {
            ImportShape::PathShape { node_spans, .. } => import_nodes_wf(
                node_spans@,
                d.span,
                len,
            ),
            ImportShape::OtherShape => true,
        },
        DeclKind::ModuleDecl(_) => true,
    }
}

/// Import path nodes are nonempty and every node span sits inside the
/// import's own span and the snapshot.
pub open spec fn import_nodes_wf(node_spans: Seq<ByteRange>, outer: ByteRange, len: nat) -> bool {
    &&& node_spans.len() >= 1
    &&& forall|i: int|
        0 <= i < node_spans.len() ==> (#[trigger] node_spans[i]).wf(len) && outer.start
            <= node_spans[i].start && node_spans[i].end <= outer.end
}

/// A name span sits inside its declaration's span and the snapshot.
pub open spec fn ident_in(id: Ident, outer: ByteRange, len: nat) -> bool {
    id.span.wf(len) && outer.start <= id.span.start && id.span.end <= outer.end
}

/// Well-formedness of a whole declaration list.
pub open spec fn decls_wf(ds: Seq<Decl>, len: nat) -> bool {
    forall|i: int| 0 <= i < ds.len() ==> decl_wf(#[trigger] ds[i], len)
}

/// Decides `decls_wf`.  The unverified shell checks the declaration lists it
/// builds with this before handing them to the passes.
pub fn check_decls_wf(ds: &Vec<Decl>, len: usize) -> (r: bool)
    ensures
        r == decls_wf(ds@, len as nat),
{
    let mut i: usize = 0;
    while i < ds.len()
        invariant
            i <= ds@.len(),
            forall|k: int| 0 <= k < i ==> decl_wf(#[trigger] ds@[k], len as nat),
        decreases ds@.len() - i,
    {
        if !check_decl_wf(&ds[i], len) {
            return false;
        }
        i = i + 1;
    }
    true
}

/// Decides `decl_wf` for one declaration.
fn check_decl_wf(d: &Decl, len: usize) -> (r: bool)
    ensures
        r == decl_wf(*d, len as nat),
{
    if !(d.span.start <= d.span.end && d.span.end <= len) {
        return false;
    }
    match &d.kind {
        DeclKind::StructDecl(id) => check_ident_in(id, d.span, len),
        DeclKind::FnDecl(id) => check_ident_in(id, d.span, len),
        DeclKind::TraitDecl(id) => check_ident_in(id, d.span, len),
        DeclKind::ImplDecl { self_path, trait_path } => {
            let self_ok = match self_path {
                Option::Some(p) => p.segments >= 1,
                Option::None => true,
            };
            let trait_ok = match trait_path {
                Option::Some(p) => p.segments >= 1,
                Option::None => true,
            };
            self_ok && trait_ok
        },
        DeclKind::ImportDecl(shape) => match shape {
            ImportShape::PathShape { node_spans, .. } => check_import_nodes_wf(
                node_spans,
                d.span,
                len,
            ),
            ImportShape::OtherShape => true,
        },
        DeclKind::ModuleDecl(_) => true,
    }
}

/// Decides `import_nodes_wf`.
fn check_import_nodes_wf(node_spans: &Vec<ByteRange>, outer: ByteRange, len: usize) -> (r: bool)
    ensures
        r == import_nodes_wf(node_spans@, outer, len as nat),
{
    if node_spans.len() == 0 {
        return false;
    }
    let mut i: usize = 0;
    while i < node_spans.len()
        invariant
            i <= node_spans@.len(),
            forall|k: int|
                0 <= k < i ==> (#[trigger] node_spans@[k]).wf(len as nat) && outer.start
                    <= node_spans@[k].start && node_spans@[k].end <= outer.end,
        decreases node_spans@.len() - i,
    {
        let s = node_spans[i];
        if !(s.start <= s.end && s.end <= len && outer.start <= s.start && s.end <= outer.end) {
            proof {
                assert(!((node_spans@[i as int]).wf(len as nat) && outer.start
                    <= node_spans@[i as int].start && node_spans@[i as int].end <= outer.end));
            }
            return false;
        }
        i = i + 1;
    }
    true
}

/// Decides `ident_in`.
fn check_ident_in(id: &Ident, outer: ByteRange, len: usize) -> (r: bool)
    ensures
        r == ident_in(*id, outer, len as nat),
{
    id.span.start <= id.span.end && id.span.end <= len && outer.start <= id.span.start
        && id.span.end <= outer.end
}

} // verus!
