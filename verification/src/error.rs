//! Parse errors reported by tree construction.
use vstd::prelude::*;

verus! {

/// A parse error (§13.2.2). Parse errors never stop parsing; they are
/// recorded on the tree constructor.
#[derive(Clone, Copy, Debug, PartialEq, Eq)]
pub enum ParseError {
    /// A DOCTYPE other than `<!DOCTYPE html>` (optionally with the
    /// `about:legacy-compat` system identifier).
    InvalidDoctype,
    /// Any other parse error, with a short description.
    Generic(&'static str),
}

} // verus!
