//! The insertion modes of tree construction (§13.2.4.1).
use vstd::prelude::*;

verus! {

/// The 23 insertion modes of §13.2.4.1.
#[derive(Clone, Copy, Debug, PartialEq, Eq, Structural)]
pub enum InsertionMode {
    Initial,
    BeforeHtml,
    BeforeHead,
    InHead,
    InHeadNoscript,
    AfterHead,
    InBody,
    Text,
    InTable,
    InTableText,
    InCaption,
    InColumnGroup,
    InTableBody,
    InRow,
    InCell,
    InSelect,
    InSelectInTable,
    InTemplate,
    AfterBody,
    InFrameset,
    AfterFrameset,
    AfterAfterBody,
    AfterAfterFrameset,
}

/// The insertion modes whose token handling is implemented.
pub open spec fn supported_mode(m: InsertionMode) -> bool {
    match m {
        InsertionMode::Initial | InsertionMode::BeforeHtml | InsertionMode::BeforeHead
        | InsertionMode::InHead | InsertionMode::Text | InsertionMode::AfterHead
        | InsertionMode::InBody | InsertionMode::InFrameset | InsertionMode::AfterFrameset => true,
        _ => false,
    }
}

/// Order in which the implemented modes are reached; a token is only ever
/// reprocessed in a mode of strictly higher rank.
pub open spec fn mode_rank(m: InsertionMode) -> int {
    match m {
        InsertionMode::Initial => 0,
        InsertionMode::BeforeHtml => 1,
        InsertionMode::BeforeHead => 2,
        InsertionMode::Text => 3,
        InsertionMode::InHead => 4,
        InsertionMode::AfterHead => 5,
        InsertionMode::InBody => 6,
        InsertionMode::InFrameset => 6,
        InsertionMode::AfterFrameset => 6,
        _ => 7,
    }
}

/// Modes that the Text mode may return to.
pub open spec fn text_return_mode(m: InsertionMode) -> bool {
    match m {
        InsertionMode::InHead | InsertionMode::AfterHead | InsertionMode::InBody
        | InsertionMode::InFrameset | InsertionMode::AfterFrameset => true,
        _ => false,
    }
}

} // verus!
