//! Verified core of a small family of text-stream utilities: an echo-like
//! joiner, a cat-like line formatter with optional line numbering, and a
//! head-like bounded reader with line and byte limits over several sources.
//!
//! The library holds the logic: configuration validation, per-line
//! formatting, counters, limits, and the multi-source banner layout. A thin
//! unverified shell does the argument parsing and the actual I/O and hands
//! plain values in and out.
use vstd::prelude::*;

pub mod cat;
pub mod echo;
pub mod head;
pub mod numbers;

verus! {

/// The rule governing what subset of a source's content is emitted and how
/// it is formatted. Exactly one mode is active per invocation; the limits
/// carried by `LineLimit` and `ByteLimit` are strictly positive.
#[derive(Debug)]
pub enum SelectionMode {
    /// Copy every line verbatim.
    WholeStream,
    /// Prefix every line with a 1-based number, blank lines included.
    NumberAllLines,
    /// Number only non-blank lines; blank lines pass through bare.
    NumberNonBlankLines,
    /// Emit at most the first `n` lines, verbatim.
    LineLimit(usize),
    /// Emit at most the first `n` bytes, decoded to text best-effort.
    ByteLimit(usize),
}

impl SelectionMode {
    /// A mode is well formed when any limit it carries is strictly positive.
    pub open spec fn wf(&self) -> bool {
        match *self {
            SelectionMode::LineLimit(n) => n >= 1,
            SelectionMode::ByteLimit(n) => n >= 1,
            _ => true,
        }
    }
}

} // verus!
