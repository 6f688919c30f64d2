use vstd::prelude::*;

use crate::decl::{spec_is_test_module, Decl, DeclKind};
use crate::prune::{remove_spans, retained};
use crate::span::ByteRange;

verus! {

/// The spans of the test-only module blocks among the first `n`
/// declarations.
pub open spec fn test_module_spans_upto(decls: Seq<Decl>, n: int) -> Seq<ByteRange>
    decreases n,
{
    if n <= 0 {
        Seq::empty()
    } else {
        let prev = test_module_spans_upto(decls, n - 1);
        match decls[n - 1].kind {
            DeclKind::ModuleDecl(attrs) => if spec_is_test_module(attrs@) {
                prev.push(decls[n - 1].span)
            } else {
                prev
            },
            _ => prev,
        }
    }
}

/// The spans of all test-only module blocks.
pub open spec fn test_module_spans(decls: Seq<Decl>) -> Seq<ByteRange> {
    test_module_spans_upto(decls, decls.len() as int)
}

/// Deletes the full span of every module block carrying the recognized
/// test-only conditional-compilation marker.  Test code references
/// production declarations that the shipped program does not, which would
/// otherwise mask genuinely dead code as used.
pub fn remove_tests(src: &Vec<u8>, decls: &Vec<Decl>) -> (out: Vec<u8>)
    ensures
        out@ == retained(src@, test_module_spans(decls@)),
{
    let mut spans: Vec<ByteRange> = Vec::new();
    let mut i: usize = 0;
    while i < decls.len()
        invariant
            i <= decls@.len(),
            spans@ == test_module_spans_upto(decls@, i as int),
        decreases decls@.len() - i,
    {
        let d = &decls[i];
        match &d.kind {
            DeclKind::ModuleDecl(attrs) => {
                if crate::decl::is_test_module(attrs) {
                    spans.push(d.span);
                }
            },
            _ => {},
        }
        i = i + 1;
    }
    remove_spans(src, &spans)
}

} // verus!
