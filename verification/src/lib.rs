//! Minimizes a program for single-file submission.
//!
//! Given one source unit assembled from a main file and inlined library
//! modules, the crate strips every top-level declaration that an external
//! compiler's own "unused" diagnostics report as unreachable from the entry
//! point.  The engine correlates diagnostic byte spans against declaration
//! spans from a locally built syntax tree, deletes the dead byte ranges, and
//! repeats until a fixpoint is reached.  Two pre-passes (visibility downgrade
//! and test-subtree removal) make the compiler's analysis meaningful once
//! independent sources are concatenated into one unit.
//!
//! The compiler and formatter invocations, the syntax-tree construction and
//! the decoding of the diagnostic stream are performed by an unverified shell
//! around this crate; everything here operates on plain bytes, spans and
//! records, and is verified.
//!
//! Alongside the minimizer the crate carries the contest utilities that the
//! bundled programs draw on: prefix sums, grids with rectangle-sum queries,
//! modular matrix power, enumeration and iteration helpers.

pub mod bytes;
pub mod cli;
pub mod correlate;
pub mod decl;
pub mod diag;
pub mod errors;
pub mod grid;
pub mod itertools;
pub mod matrix;
pub mod nums;
pub mod pipeline;
pub mod prefix;
pub mod prune;
pub mod scanner;
pub mod size_hint;
pub mod sorted;
pub mod span;
pub mod teststrip;
pub mod vectors;
pub mod visibility;
