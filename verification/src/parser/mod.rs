//! Tree construction stage (§13.2.6).
//!
//! Consumes the token stream produced by the tokenizer and builds the DOM
//! tree per the WHATWG HTML insertion mode state machine.
//!
//! - [`HtmlTreeConstructor`] holds the parser state: open elements stack,
//!   active formatting elements list, current insertion mode, and flags.
//! - [`dispatch`] routes each token to the handler for the current insertion
//!   mode.
//! - [`helpers`] contains the "insert a node" / "create an element" helper
//!   algorithms from §13.2.6.1.
//! - [`insertion_mode`] defines the 23 insertion modes.
//!
//! Every handler is specified by a spec function over [`TreeModel`]; the
//! whole run of one token is [`spec_run`].
pub mod dispatch;
pub mod helpers;
pub mod insertion_mode;
pub mod shape;

use vstd::prelude::*;
use crate::dom::{Document, NodeModel, tree_wf};
use crate::error::ParseError;
use crate::tokenizer::{LexState, SpecToken, Token};
use self::dispatch::{spec_dispatch, Step};
use self::insertion_mode::{InsertionMode, mode_rank, supported_mode, text_return_mode};

verus! {

/// Mathematical model of the tree constructor.
pub struct TreeModel {
    pub nodes: Seq<NodeModel>,
    pub open: Seq<usize>,
    pub afe: Seq<usize>,
    pub mode: InsertionMode,
    pub original_mode: Option<InsertionMode>,
    pub head: Option<usize>,
    pub form: Option<usize>,
    pub foster: bool,
    pub frameset_ok: bool,
    pub scripting: bool,
    pub errors: Seq<ParseError>,
    pub lex_request: Option<LexState>,
}

/// The HTML tree construction stage.
///
/// Holds the state of the insertion mode state machine (§13.2.6) and the
/// DOM tree being built. The `document` field is the output; the
/// `open_elements` stack tracks the current open element chain.
pub struct HtmlTreeConstructor {
    /// The output document. Inserted nodes are attached under node 0
    /// (directly or via the `<html>` / `<head>` / `<body>` chain).
    pub document: Document,
    /// The stack of open elements (§13.2.4.2). The top is the current node.
    pub open_elements: Vec<usize>,
    /// The list of active formatting elements (§13.2.4.3).
    pub active_formatting_elements: Vec<usize>,
    /// The current insertion mode (§13.2.4.1).
    pub insertion_mode: InsertionMode,
    /// The original insertion mode, saved when entering Text mode.
    pub original_insertion_mode: Option<InsertionMode>,
    /// The `<head>` element pointer (§13.2.4.4).
    pub head_element: Option<usize>,
    /// The `<form>` element pointer (§13.2.4.4).
    pub form_element: Option<usize>,
    /// Whether foster parenting is active (§13.2.6.1).
    pub foster_parenting: bool,
    /// The "frameset-ok" flag (§13.2.4.5).
    pub frameset_ok: bool,
    /// The scripting flag (§13.2.4.5); false for this parser.
    pub scripting_flag: bool,
    /// Parse errors accumulated during tree construction.
    pub errors: Vec<ParseError>,
    /// A content-model switch requested from the tokenizer (set when a
    /// `<title>`, `<style>` or `<script>` start tag is
    /// inserted); the driver applies it before the next token.
    pub tokenizer_state: Option<LexState>,
}

impl View for HtmlTreeConstructor {
    type V = TreeModel;

    open spec fn view(&self) -> TreeModel {
        TreeModel {
            nodes: self.document@,
            open: self.open_elements@,
            afe: self.active_formatting_elements@,
            mode: self.insertion_mode,
            original_mode: self.original_insertion_mode,
            head: self.head_element,
            form: self.form_element,
            foster: self.foster_parenting,
            frameset_ok: self.frameset_ok,
            scripting: self.scripting_flag,
            errors: self.errors@,
            lex_request: self.tokenizer_state,
        }
    }
}

/// The current node: the top of the open elements stack, or the Document
/// when the stack is empty (§13.2.4.2).
pub open spec fn current_of(m: TreeModel) -> int {
    if m.open.len() > 0 {
        m.open.last() as int
    } else {
        0
    }
}

/// `id` is an element node.
pub open spec fn is_element(nodes: Seq<NodeModel>, id: int) -> bool {
    0 <= id < nodes.len() && nodes[id].kind is Element
}

/// Every entry of the stack of open elements is an element node.
pub open spec fn open_ok(nodes: Seq<NodeModel>, open: Seq<usize>) -> bool {
    forall|k: int| 0 <= k < open.len() ==> #[trigger] is_element(nodes, open[k] as int)
}

/// Invariant of the tree constructor: a well-formed tree, open elements and
/// the head pointer name element nodes, the insertion mode is an
/// implemented one, and Text mode knows where to return.
pub open spec fn model_wf(m: TreeModel) -> bool {
    &&& tree_wf(m.nodes)
    &&& open_ok(m.nodes, m.open)
    &&& (m.head matches Some(h) ==> is_element(m.nodes, h as int))
    &&& supported_mode(m.mode)
    &&& (m.mode == InsertionMode::Text ==> (m.original_mode matches Some(o) && text_return_mode(o)))
}

/// Room for the nodes that processing one token may add.
pub open spec fn has_room(m: TreeModel) -> bool {
    m.nodes.len() + 16 < usize::MAX
}

/// Processing of one token: dispatch in the current insertion mode and
/// reprocess in the new mode for as long as a handler asks for it.
pub open spec fn spec_run(m: TreeModel, t: SpecToken) -> TreeModel
    decreases 8 - mode_rank(m.mode),
{
    let (m2, s) = spec_dispatch(m, t);
    if s == Step::Done {
        m2
    } else if mode_rank(m.mode) < mode_rank(m2.mode) <= 8 {
        spec_run(m2, t)
    } else {
        m2
    }
}

impl HtmlTreeConstructor {
    /// The constructor's invariant.
    pub open spec fn wf(&self) -> bool {
        model_wf(self@)
    }

    /// A new tree constructor building into `document` (§13.2.6): initial
    /// insertion mode, frameset-ok set, scripting disabled, no open
    /// elements.
    pub fn new(document: Document) -> (p: Self)
        ensures
            p@ == (TreeModel {
                nodes: document@,
                open: Seq::empty(),
                afe: Seq::empty(),
                mode: InsertionMode::Initial,
                original_mode: None,
                head: None,
                form: None,
                foster: false,
                frameset_ok: true,
                scripting: false,
                errors: Seq::empty(),
                lex_request: None,
            }),
            document.wf() ==> p.wf(),
    {
        HtmlTreeConstructor {
            document,
            open_elements: Vec::new(),
            active_formatting_elements: Vec::new(),
            insertion_mode: InsertionMode::Initial,
            original_insertion_mode: None,
            head_element: None,
            form_element: None,
            foster_parenting: false,
            frameset_ok: true,
            scripting_flag: false,
            errors: Vec::new(),
            tokenizer_state: None,
        }
    }

    /// The current node (§13.2.4.2): the top of the open elements stack, or
    /// the Document when the stack is empty.
    pub fn current_node(&self) -> (c: usize)
        ensures
            c as int == current_of(self@),
    {
        let n = self.open_elements.len();
        if n > 0 {
            self.open_elements[n - 1]
        } else {
            0
        }
    }

    /// Takes the pending tokenizer content-model switch, if any.
    pub fn take_tokenizer_state(&mut self) -> (r: Option<LexState>)
        ensures
            r == old(self)@.lex_request,
            final(self)@ == (TreeModel { lex_request: None, ..old(self)@ }),
    {
        let r = self.tokenizer_state;
        self.tokenizer_state = None;
        r
    }

    /// Feeds one token to the tree construction state machine: dispatches
    /// it to the handler of the current insertion mode and, while the
    /// handler asks for it, reprocesses it in the new mode.
    pub fn run(&mut self, token: &Token)
        requires
            old(self).wf(),
            has_room(old(self)@),
        ensures
            final(self).wf(),
            final(self)@ == spec_run(old(self)@, token@),
            final(self)@.nodes.len() <= old(self)@.nodes.len() + 8,
            shape::shape_inv(old(self)@) ==> shape::shape_inv(final(self)@),
            token@ is EOF ==> shape::late_mode(final(self)@.mode),
    {
        let ghost start = self@;
        loop
            invariant
                self.wf(),
                spec_run(start, token@) == spec_run(self@, token@),
                self@.nodes.len() <= start.nodes.len() + mode_rank(self@.mode) - mode_rank(
                    start.mode,
                ),
                mode_rank(start.mode) <= mode_rank(self@.mode) <= 7,
                has_room(start),
                start == old(self)@,
                shape::shape_inv(start) ==> shape::shape_inv(self@),
            decreases 8 - mode_rank(self@.mode),
        {
            let ghost before = self@;
            proof {
                if shape::shape_inv(before) {
                    shape::lemma_dispatch_shape(before, token@);
                }
                shape::lemma_dispatch_eof(before);
            }
            let step = dispatch::dispatch(self, token);
            match step {
                Step::Done => {
                    return;
                },
                Step::Reprocess => {
                    proof {
                        dispatch::lemma_reprocess_rank(before, token@);
                    }
                },
            }
        }
    }
}

} // verus!
