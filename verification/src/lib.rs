//! MusKitty: the verified core of a small web browser.
//!
//! - [`tokenizer`] and [`parser`] implement the two stages of the WHATWG
//!   HTML parsing algorithm (§13.2.1); [`parse`] drives them over a string.
//! - [`dom`] is the node arena that tree construction builds; [`error`]
//!   holds the parse errors it records.
//! - [`network`] and [`navigation`]: HTTP responses, address-bar
//!   classification, response to page, and the error pages.
//! - [`chrome`]: keys, shortcuts, the address bar and key routing.
//! - [`webview`]: pages, tabs, and the decisions of shortcuts, chrome
//!   effects and navigation.
//! - [`browser`] and [`render`]: pixel conversion, built-in pages, and the
//!   paint keywords.
//! - [`text`]: operations on character sequences and strings.
use vstd::prelude::*;
use crate::dom::{Document, NodeModel, empty_document, text_merged};
use crate::parser::{HtmlTreeConstructor, TreeModel, spec_run};
use crate::parser::shape::{
    document_shape, lemma_initial_shape, lemma_late_document_shape, shape_inv,
};
use crate::tokenizer::{HtmlTokenizer, LexState, Token, TokenizerModel, tokenizer_step};

pub mod browser;
pub mod chrome;
pub mod dom;
pub mod error;
pub mod navigation;
pub mod network;
pub mod parser;
pub mod render;
pub mod text;
pub mod tokenizer;
pub mod webview;

verus! {

/// The tokenizer after `run` has handed a content-model switch over.
pub open spec fn apply_lex_request(t: TokenizerModel, req: Option<LexState>) -> TokenizerModel {
    match req {
        Some(st) => TokenizerModel { state: st, ..t },
        None => t,
    }
}

/// The two parsing stages run to the end: each token that the tokenizer
/// emits is fed to tree construction, whose requested content-model switch
/// is applied to the tokenizer before the next token; parsing stops after
/// the EOF token.
pub open spec fn parse_steps(t: TokenizerModel, p: TreeModel) -> TreeModel
    decreases t.input.len() - t.pos + (if t.done { 0int } else { 1int }),
    when 0 <= t.pos <= t.input.len()
{
    match tokenizer_step(t).0 {
        None => p,
        Some(tok) => {
            let t2 = tokenizer_step(t).1;
            let p2 = spec_run(p, tok);
            if tok is EOF {
                p2
            } else {
                proof {
                    crate::tokenizer::lemma_next_token_progress(
                        t.input,
                        t.pos,
                        t.state,
                        t.last_start_tag,
                    );
                }
                parse_steps(
                    apply_lex_request(t2, p2.lex_request),
                    TreeModel { lex_request: None, ..p2 },
                )
            }
        },
    }
}

/// The tree constructor's initial state over a new document.
pub open spec fn initial_tree(nodes: Seq<NodeModel>) -> TreeModel {
    TreeModel {
        nodes,
        open: Seq::empty(),
        afe: Seq::empty(),
        mode: crate::parser::insertion_mode::InsertionMode::Initial,
        original_mode: None,
        head: None,
        form: None,
        foster: false,
        frameset_ok: true,
        scripting: false,
        errors: Seq::empty(),
        lex_request: None,
    }
}

/// The tokenizer's initial state over `input`.
pub open spec fn initial_tokenizer(input: Seq<char>) -> TokenizerModel {
    TokenizerModel {
        input,
        pos: 0,
        state: LexState::Data,
        last_start_tag: Seq::empty(),
        done: false,
    }
}

/// The document that parsing `input` builds.
pub open spec fn parse_model(input: Seq<char>) -> TreeModel {
    parse_steps(initial_tokenizer(input), initial_tree(empty_document()))
}

/// Parses an HTML string into a document (§13.2.1): a tokenizer over
/// `input` feeds every token it emits to a tree constructor targeting a
/// fresh document, until EOF. Parse errors are recorded by the tree
/// constructor and not returned.
///
/// Whatever the input, the result is a well-formed tree whose Document has
/// exactly one element child, `html`, and otherwise only comments and
/// document types; the element children of `html` are exactly `head` and
/// then `body` (or `frameset`); and no two Text nodes are siblings next to
/// each other.
pub fn parse(input: &str) -> (d: Document)
    requires
        input@.len() < usize::MAX / 16,
    ensures
        d.wf(),
        d@ == parse_model(input@).nodes,
        document_shape(d@),
        text_merged(d@),
{
    let document = Document::new();
    let mut tokenizer = HtmlTokenizer::new(input);
    let mut constructor = HtmlTreeConstructor::new(document);
    proof {
        lemma_initial_shape(constructor@);
    }
    loop
        invariant_except_break
            !tokenizer@.done,
            constructor@.nodes.len() <= 1 + 8 * tokenizer@.pos,
            parse_model(input@) == parse_steps(tokenizer@, constructor@),
        invariant
            tokenizer.wf(),
            constructor.wf(),
            tokenizer@.input == input@,
            input@.len() < usize::MAX / 16,
            shape_inv(constructor@),
        ensures
            parse_model(input@) == constructor@,
            document_shape(constructor@.nodes),
            text_merged(constructor@.nodes),
        decreases tokenizer@.input.len() - tokenizer@.pos,
    {
        let ghost t0 = tokenizer@;
        let ghost p0 = constructor@;
        proof {
            crate::tokenizer::lemma_next_token_progress(
                t0.input,
                t0.pos,
                t0.state,
                t0.last_start_tag,
            );
        }
        let next = tokenizer.next_token();
        match next {
            None => {
                break ;
            },
            Some(token) => {
                constructor.run(&token);
                let is_eof = match token {
                    Token::EOF => true,
                    _ => false,
                };
                if is_eof {
                    proof {
                        lemma_late_document_shape(constructor@);
                    }
                    break ;
                }
                let request = constructor.take_tokenizer_state();
                if let Some(st) = request {
                    tokenizer.set_state(st);
                }
                proof {
                    assert(tokenizer@ == apply_lex_request(tokenizer_step(t0).1, request));
                }
            },
        }
    }
    constructor.document
}

} // verus!
