//! Tree construction mode dispatcher.
//!
//! Each insertion mode has a handler that receives a token and returns a
//! [`Step`] telling whether the token was consumed or must be reprocessed
//! in the new insertion mode. The handlers implement the chain Initial,
//! before html, before head, in head, after head, in body (§13.2.6.4.1–
//! §13.2.6.4.7) with the minimal logic of a skeleton: a DOCTYPE keeps the
//! Initial mode; white space before the body is dropped; in head only
//! `meta`, `link` and `base` (void) and `title`, `style` and `script`
//! (through the Text mode, §13.2.6.4.8) create elements, and `meta` does so
//! after the head too; in body only characters and comments are inserted.
//! A `frameset` after the head enters the in frameset and after frameset
//! modes (§13.2.6.4.20, §13.2.6.4.21).
use vstd::prelude::*;
use crate::dom::{
    KindModel, NodeKind, NodeModel, DocumentTypeData, lemma_create_append_frame, model_create_append,
};
use crate::error::ParseError;
use crate::text::{chars_eq, chars_to_string, eq_str, str_to_chars};
use crate::tokenizer::{
    DoctypeToken, LexState, SpecDoctype, SpecTag, SpecToken, TagKind, TagToken, Token,
};
use super::helpers::{
    element_kind, insert_character, insert_comment, insert_comment_at, insert_element,
    insert_named_element, lemma_current_in_range, lemma_insert_node_wf, model_error,
    model_insert_char, model_insert_comment, model_insert_comment_at, model_insert_element,
    model_pop, named_element_kind,
};
use super::insertion_mode::{InsertionMode, mode_rank, text_return_mode};
use super::{HtmlTreeConstructor, TreeModel, current_of, is_element, model_wf};

verus! {

/// Result of a tree construction step.
#[derive(Clone, Copy, Debug, PartialEq, Eq, Structural)]
pub enum Step {
    /// Token was consumed; get the next token.
    Done,
    /// Switch insertion mode and reprocess the same token.
    Reprocess,
}

// ───────────────────────────── token tests ─────────────────────────────

/// Whitespace for tree construction: tab, LF, FF, CR, space.
pub open spec fn is_whitespace_char(c: char) -> bool {
    c == '\t' || c == '\n' || c == '\x0C' || c == '\r' || c == ' '
}

/// `base`, `link`, `meta`: inserted and popped at once in the in head mode.
pub open spec fn head_void_name(n: Seq<char>) -> bool {
    n == "base"@ || n == "link"@ || n == "meta"@
}

/// `style`, `script`: raw text elements of the in head mode.
pub open spec fn head_raw_name(n: Seq<char>) -> bool {
    n == "style"@ || n == "script"@
}

/// A DOCTYPE that is not a parse error: name `html`, no public identifier,
/// no system identifier or `about:legacy-compat`.
pub open spec fn doctype_is_valid(d: SpecDoctype) -> bool {
    &&& d.name == Some("html"@)
    &&& d.public_id is None
    &&& (d.system_id is None || d.system_id == Some("about:legacy-compat"@))
}

pub open spec fn or_empty(o: Option<Seq<char>>) -> Seq<char> {
    match o {
        Some(s) => s,
        None => Seq::empty(),
    }
}

/// The element at `id` is an element named `name`.
pub open spec fn element_named(nodes: Seq<NodeModel>, id: int, name: Seq<char>) -> bool {
    0 <= id < nodes.len() && match nodes[id].kind {
        KindModel::Element(e) => e.local_name == name,
        _ => false,
    }
}

pub open spec fn with_mode(m: TreeModel, mode: InsertionMode) -> TreeModel {
    TreeModel { mode, ..m }
}

/// The mode Text returns to.
pub open spec fn return_mode(m: TreeModel) -> InsertionMode {
    match m.original_mode {
        Some(o) => o,
        None => InsertionMode::InBody,
    }
}

/// Generic RCDATA / raw text element parsing algorithm (§13.2.6.2): insert
/// the element, switch the tokenizer, save the insertion mode, enter Text.
pub open spec fn model_text_element(m: TreeModel, tag: SpecTag, st: LexState) -> TreeModel {
    TreeModel {
        lex_request: Some(st),
        original_mode: Some(m.mode),
        mode: InsertionMode::Text,
        ..model_insert_element(m, element_kind(tag))
    }
}

// ───────────────────────────── handlers (spec) ─────────────────────────────

/// The Initial insertion mode (§13.2.6.4.1).
pub open spec fn spec_initial(m: TreeModel, t: SpecToken) -> (TreeModel, Step) {
    match t {
        SpecToken::Character(c) => if is_whitespace_char(c) {
            (m, Step::Done)
        } else {
            (with_mode(m, InsertionMode::BeforeHtml), Step::Reprocess)
        },
        SpecToken::Comment(d) => (model_insert_comment_at(m, 0, d), Step::Done),
        SpecToken::Doctype(dt) => {
            let m1 = if doctype_is_valid(dt) {
                m
            } else {
                model_error(m, ParseError::InvalidDoctype)
            };
            let kind = KindModel::DocumentType {
                name: or_empty(dt.name),
                public_id: or_empty(dt.public_id),
                system_id: or_empty(dt.system_id),
            };
            (TreeModel { nodes: model_create_append(m1.nodes, 0, kind), ..m1 }, Step::Done)
        },
        _ => (with_mode(m, InsertionMode::BeforeHtml), Step::Reprocess),
    }
}

pub open spec fn before_html_else(m: TreeModel) -> (TreeModel, Step) {
    (
        with_mode(model_insert_element(m, named_element_kind("html"@)), InsertionMode::BeforeHead),
        Step::Reprocess,
    )
}

/// The before html insertion mode (§13.2.6.4.2).
pub open spec fn spec_before_html(m: TreeModel, t: SpecToken) -> (TreeModel, Step) {
    match t {
        SpecToken::Doctype(_) => (
            model_error(m, ParseError::Generic("unexpected DOCTYPE in before html")),
            Step::Done,
        ),
        SpecToken::Comment(d) => (model_insert_comment_at(m, 0, d), Step::Done),
        SpecToken::Character(c) => if is_whitespace_char(c) {
            (m, Step::Done)
        } else {
            before_html_else(m)
        },
        SpecToken::Tag(g) => if g.kind == TagKind::Start && g.name == "html"@ {
            (
                with_mode(model_insert_element(m, element_kind(g)), InsertionMode::BeforeHead),
                Step::Done,
            )
        } else {
            before_html_else(m)
        },
        SpecToken::EOF => before_html_else(m),
    }
}

pub open spec fn before_head_else(m: TreeModel) -> (TreeModel, Step) {
    let m1 = model_insert_element(m, named_element_kind("head"@));
    (
        TreeModel { head: Some(m.nodes.len() as usize), mode: InsertionMode::InHead, ..m1 },
        Step::Reprocess,
    )
}

/// The before head insertion mode (§13.2.6.4.3).
pub open spec fn spec_before_head(m: TreeModel, t: SpecToken) -> (TreeModel, Step) {
    match t {
        SpecToken::Character(c) => if is_whitespace_char(c) {
            (m, Step::Done)
        } else {
            before_head_else(m)
        },
        SpecToken::Comment(d) => (model_insert_comment(m, d), Step::Done),
        SpecToken::Doctype(_) => (
            model_error(m, ParseError::Generic("unexpected DOCTYPE in before head")),
            Step::Done,
        ),
        SpecToken::Tag(g) => if g.kind == TagKind::Start && g.name == "html"@ {
            (m, Step::Done)
        } else if g.kind == TagKind::Start && g.name == "head"@ {
            let m1 = model_insert_element(m, element_kind(g));
            (
                TreeModel { head: Some(m.nodes.len() as usize), mode: InsertionMode::InHead, ..m1 },
                Step::Done,
            )
        } else {
            before_head_else(m)
        },
        SpecToken::EOF => before_head_else(m),
    }
}

pub open spec fn in_head_else(m: TreeModel) -> (TreeModel, Step) {
    (with_mode(model_pop(m), InsertionMode::AfterHead), Step::Reprocess)
}

/// The in head insertion mode (§13.2.6.4.4), minimal: white space is
/// dropped, `meta`, `link` and `base` are inserted and popped, `title`,
/// `style` and `script` enter Text, a second `head` is a parse error, other
/// start tags are ignored; `</head>` pops the head, and any other token
/// pops it and is reprocessed after the head.
pub open spec fn spec_in_head(m: TreeModel, t: SpecToken) -> (TreeModel, Step) {
    match t {
        SpecToken::Character(c) => if is_whitespace_char(c) {
            (m, Step::Done)
        } else {
            in_head_else(m)
        },
        SpecToken::Comment(d) => (model_insert_comment(m, d), Step::Done),
        SpecToken::Doctype(_) => (
            model_error(m, ParseError::Generic("unexpected DOCTYPE in head")),
            Step::Done,
        ),
        SpecToken::Tag(g) => if g.kind == TagKind::Start {
            if g.name == "head"@ {
                (model_error(m, ParseError::Generic("duplicate head start tag")), Step::Done)
            } else if head_void_name(g.name) {
                (model_pop(model_insert_element(m, element_kind(g))), Step::Done)
            } else if g.name == "title"@ {
                (model_text_element(m, g, LexState::RcData), Step::Done)
            } else if head_raw_name(g.name) {
                (model_text_element(m, g, LexState::RawText), Step::Done)
            } else {
                (m, Step::Done)
            }
        } else if g.name == "head"@ {
            (with_mode(model_pop(m), InsertionMode::AfterHead), Step::Done)
        } else {
            in_head_else(m)
        },
        SpecToken::EOF => in_head_else(m),
    }
}

/// The Text insertion mode (§13.2.6.4.8).
pub open spec fn spec_text(m: TreeModel, t: SpecToken) -> (TreeModel, Step) {
    match t {
        SpecToken::Character(c) => (model_insert_char(m, c), Step::Done),
        SpecToken::EOF => (
            with_mode(
                model_pop(model_error(m, ParseError::Generic("unexpected end of file in text"))),
                return_mode(m),
            ),
            Step::Reprocess,
        ),
        SpecToken::Tag(g) => if g.kind == TagKind::End {
            (with_mode(model_pop(m), return_mode(m)), Step::Done)
        } else {
            (m, Step::Done)
        },
        _ => (m, Step::Done),
    }
}

/// Processing a `meta` start tag using the in head rules from the after
/// head mode: the head element is pushed for the duration and removed
/// again.
pub open spec fn after_head_in_head(m: TreeModel, t: SpecToken) -> (TreeModel, Step) {
    match m.head {
        Some(h) => {
            let m0 = model_error(m, ParseError::Generic("meta start tag after head"));
            let m1 = TreeModel { open: m0.open.push(h), ..m0 };
            let (m2, s) = spec_in_head(m1, t);
            let idx = m.open.len() as int;
            if idx < m2.open.len() {
                (TreeModel { open: m2.open.remove(idx), ..m2 }, s)
            } else {
                (m2, s)
            }
        },
        None => (m, Step::Done),
    }
}

pub open spec fn after_head_else(m: TreeModel) -> (TreeModel, Step) {
    (
        TreeModel {
            frameset_ok: false,
            mode: InsertionMode::InBody,
            ..model_insert_element(m, named_element_kind("body"@))
        },
        Step::Reprocess,
    )
}

/// The after head insertion mode (§13.2.6.4.6), minimal: white space is
/// dropped, `body` enters in body, `frameset` enters in frameset, `meta` is
/// processed by the in head rules, `html` and a second `head` are ignored;
/// any other token creates `body` and is reprocessed in body.
pub open spec fn spec_after_head(m: TreeModel, t: SpecToken) -> (TreeModel, Step) {
    match t {
        SpecToken::Character(c) => if is_whitespace_char(c) {
            (m, Step::Done)
        } else {
            after_head_else(m)
        },
        SpecToken::Comment(d) => (model_insert_comment(m, d), Step::Done),
        SpecToken::Doctype(_) => (
            model_error(m, ParseError::Generic("unexpected DOCTYPE after head")),
            Step::Done,
        ),
        SpecToken::Tag(g) => if g.kind == TagKind::Start {
            if g.name == "html"@ {
                (m, Step::Done)
            } else if g.name == "body"@ {
                (
                    TreeModel {
                        frameset_ok: false,
                        mode: InsertionMode::InBody,
                        ..model_insert_element(m, element_kind(g))
                    },
                    Step::Done,
                )
            } else if g.name == "frameset"@ {
                (
                    with_mode(model_insert_element(m, element_kind(g)), InsertionMode::InFrameset),
                    Step::Done,
                )
            } else if g.name == "meta"@ {
                after_head_in_head(m, t)
            } else if g.name == "head"@ {
                (
                    model_error(m, ParseError::Generic("unexpected head start tag after head")),
                    Step::Done,
                )
            } else {
                after_head_else(m)
            }
        } else {
            after_head_else(m)
        },
        SpecToken::EOF => after_head_else(m),
    }
}

/// The in body insertion mode (§13.2.6.4.7), minimal: characters and
/// comments are inserted at the current node; every other token is
/// ignored.
pub open spec fn spec_in_body(m: TreeModel, t: SpecToken) -> (TreeModel, Step) {
    match t {
        SpecToken::Character(c) => (model_insert_char(m, c), Step::Done),
        SpecToken::Comment(d) => (model_insert_comment(m, d), Step::Done),
        _ => (m, Step::Done),
    }
}

/// The in frameset insertion mode (§13.2.6.4.20).
pub open spec fn spec_in_frameset(m: TreeModel, t: SpecToken) -> (TreeModel, Step) {
    match t {
        SpecToken::Character(c) => if is_whitespace_char(c) {
            (model_insert_char(m, c), Step::Done)
        } else {
            (model_error(m, ParseError::Generic("unexpected character in frameset")), Step::Done)
        },
        SpecToken::Comment(d) => (model_insert_comment(m, d), Step::Done),
        SpecToken::EOF => (m, Step::Done),
        SpecToken::Tag(g) => if g.kind == TagKind::Start && g.name == "html"@ {
            (m, Step::Done)
        } else if g.kind == TagKind::Start && g.name == "frameset"@ {
            (model_insert_element(m, element_kind(g)), Step::Done)
        } else if g.kind == TagKind::End && g.name == "frameset"@ {
            if m.open.len() <= 1 {
                (
                    model_error(m, ParseError::Generic("unexpected frameset end tag")),
                    Step::Done,
                )
            } else {
                let m2 = model_pop(m);
                if element_named(m2.nodes, current_of(m2), "frameset"@) {
                    (m2, Step::Done)
                } else {
                    (with_mode(m2, InsertionMode::AfterFrameset), Step::Done)
                }
            }
        } else if g.kind == TagKind::Start && g.name == "frame"@ {
            (model_pop(model_insert_element(m, element_kind(g))), Step::Done)
        } else {
            (model_error(m, ParseError::Generic("unexpected tag in frameset")), Step::Done)
        },
        SpecToken::Doctype(_) => (
            model_error(m, ParseError::Generic("unexpected DOCTYPE in frameset")),
            Step::Done,
        ),
    }
}

/// The after frameset insertion mode (§13.2.6.4.21).
pub open spec fn spec_after_frameset(m: TreeModel, t: SpecToken) -> (TreeModel, Step) {
    match t {
        SpecToken::Character(c) => if is_whitespace_char(c) {
            (model_insert_char(m, c), Step::Done)
        } else {
            (
                model_error(m, ParseError::Generic("unexpected character after frameset")),
                Step::Done,
            )
        },
        SpecToken::Comment(d) => (model_insert_comment(m, d), Step::Done),
        SpecToken::EOF => (m, Step::Done),
        SpecToken::Tag(g) => if g.name == "html"@ {
            (m, Step::Done)
        } else {
            (model_error(m, ParseError::Generic("unexpected tag after frameset")), Step::Done)
        },
        SpecToken::Doctype(_) => (
            model_error(m, ParseError::Generic("unexpected DOCTYPE after frameset")),
            Step::Done,
        ),
    }
}

/// Dispatches a token to the handler of the current insertion mode.
pub open spec fn spec_dispatch(m: TreeModel, t: SpecToken) -> (TreeModel, Step) {
    match m.mode {
        InsertionMode::Initial => spec_initial(m, t),
        InsertionMode::BeforeHtml => spec_before_html(m, t),
        InsertionMode::BeforeHead => spec_before_head(m, t),
        InsertionMode::InHead => spec_in_head(m, t),
        InsertionMode::Text => spec_text(m, t),
        InsertionMode::AfterHead => spec_after_head(m, t),
        InsertionMode::InBody => spec_in_body(m, t),
        InsertionMode::InFrameset => spec_in_frameset(m, t),
        InsertionMode::AfterFrameset => spec_after_frameset(m, t),
        _ => (m, Step::Done),
    }
}

/// A reprocessed token always moves to a mode of higher rank.
pub proof fn lemma_reprocess_rank(m: TreeModel, t: SpecToken)
    requires
        model_wf(m),
    ensures
        spec_dispatch(m, t).1 == Step::Reprocess ==> mode_rank(m.mode) < mode_rank(
            spec_dispatch(m, t).0.mode,
        ) <= 7,
{
}

/// Tree construction only moves forward through the insertion modes: a
/// step never returns to a mode of lower rank, except through Text, which
/// is entered saving the current mode and left for the saved mode.
pub proof fn lemma_dispatch_mode_order(m: TreeModel, t: SpecToken)
    requires
        model_wf(m),
    ensures
        ({
            let m2 = spec_dispatch(m, t).0;
            &&& m.mode != InsertionMode::Text && m2.mode != InsertionMode::Text ==> mode_rank(
                m.mode,
            ) <= mode_rank(m2.mode)
            &&& m.mode != InsertionMode::Text && m2.mode == InsertionMode::Text ==> m2.original_mode
                == Some(m.mode)
            &&& m.mode == InsertionMode::Text ==> m2.mode == InsertionMode::Text || m2.mode
                == return_mode(m)
        }),
{
}

/// The mode after `m` on the way from the start of a document to its body:
/// Initial, BeforeHtml, BeforeHead, InHead, AfterHead, InBody.
pub open spec fn next_mode(m: InsertionMode) -> InsertionMode {
    match m {
        InsertionMode::Initial => InsertionMode::BeforeHtml,
        InsertionMode::BeforeHtml => InsertionMode::BeforeHead,
        InsertionMode::BeforeHead => InsertionMode::InHead,
        InsertionMode::InHead => InsertionMode::AfterHead,
        InsertionMode::AfterHead => InsertionMode::InBody,
        _ => m,
    }
}

/// One of the modes before the body.
pub open spec fn before_body_mode(m: InsertionMode) -> bool {
    m == InsertionMode::Initial || m == InsertionMode::BeforeHtml || m == InsertionMode::BeforeHead
        || m == InsertionMode::InHead || m == InsertionMode::AfterHead
}

/// The modes before the body form a chain: a reprocessed token moves
/// exactly one mode along it, a consumed token stays or moves one mode
/// (besides entering Text for a raw-text element in the head, and a
/// frameset after the head); in the body no token is reprocessed.
pub proof fn lemma_dispatch_mode_chain(m: TreeModel, t: SpecToken)
    requires
        model_wf(m),
    ensures
        ({
            let (m2, step) = spec_dispatch(m, t);
            &&& before_body_mode(m.mode) && step == Step::Reprocess ==> m2.mode == next_mode(m.mode)
            &&& before_body_mode(m.mode) && step == Step::Done && m2.mode != InsertionMode::Text
                && m2.mode != InsertionMode::InFrameset ==> m2.mode == m.mode || m2.mode
                == next_mode(m.mode)
            &&& m.mode == InsertionMode::InBody ==> step == Step::Done
        }),
{
}

/// The data of the Text nodes among `kids`, in order.
pub open spec fn texts_among(nodes: Seq<NodeModel>, kids: Seq<usize>) -> Seq<char>
    decreases kids.len(),
{
    if kids.len() == 0 {
        Seq::empty()
    } else {
        texts_among(nodes, kids.drop_last()) + match nodes[kids.last() as int].kind {
            KindModel::Text(d) => d,
            _ => Seq::empty(),
        }
    }
}

/// The text directly inside node `id`: the data of its Text children.
pub open spec fn child_text(nodes: Seq<NodeModel>, id: int) -> Seq<char> {
    texts_among(nodes, nodes[id].children)
}

/// The text among `kids` depends only on the kinds of those nodes.
proof fn lemma_texts_among_same(n1: Seq<NodeModel>, n2: Seq<NodeModel>, kids: Seq<usize>)
    requires
        forall|i: int| 0 <= i < kids.len() ==> n1[#[trigger] kids[i] as int].kind == n2[kids[i] as int].kind,
    ensures
        texts_among(n1, kids) == texts_among(n2, kids),
    decreases kids.len(),
{
    if kids.len() > 0 {
        let d = kids.drop_last();
        assert forall|i: int| 0 <= i < d.len() implies n1[#[trigger] d[i] as int].kind == n2[d[i]
            as int].kind by {
            assert(d[i] == kids[i]);
        }
        lemma_texts_among_same(n1, n2, d);
        assert(kids.last() == kids[kids.len() - 1]);
    }
}

/// In body every character token is kept, white space included: the text
/// directly inside the current node grows by exactly that character, and
/// the mode and the stack of open elements stay.
pub proof fn lemma_body_keeps_every_character(m: TreeModel, c: char)
    requires
        model_wf(m),
        m.mode == InsertionMode::InBody,
        m.open.len() >= 1,
        m.nodes.len() + 1 < usize::MAX,
    ensures
        ({
            let (m2, s) = spec_dispatch(m, SpecToken::Character(c));
            &&& s == Step::Done
            &&& m2.mode == InsertionMode::InBody
            &&& m2.open == m.open
            &&& child_text(m2.nodes, current_of(m)) == child_text(m.nodes, current_of(m)).push(c)
        }),
{
    let nodes = m.nodes;
    let cur = current_of(m);
    assert(is_element(nodes, m.open[m.open.len() - 1] as int));
    let kids = nodes[cur].children;
    let n2 = spec_dispatch(m, SpecToken::Character(c)).0.nodes;
    assert(forall|k: int| 0 <= k < kids.len() ==> #[trigger] crate::dom::child_ok(nodes, cur, k));
    if kids.len() > 0 && (kids.last() as int) < nodes.len() && nodes[kids.last() as int].kind is Text {
        let id = kids.last() as int;
        let d = nodes[id].kind->Text_0;
        assert(n2 == nodes.update(id, NodeModel { kind: KindModel::Text(d.push(c)), ..nodes[id] }));
        assert(n2[cur] == nodes[cur]);
        let dl = kids.drop_last();
        assert forall|i: int| 0 <= i < dl.len() implies nodes[#[trigger] dl[i] as int].kind
            == n2[dl[i] as int].kind by {
            assert(dl[i] == kids[i]);
            assert(crate::dom::child_ok(nodes, cur, i));
            assert(kids[i] != kids[kids.len() - 1]);
        }
        lemma_texts_among_same(nodes, n2, dl);
        assert(kids.last() == kids[kids.len() - 1]);
        assert(child_text(n2, cur) =~= texts_among(nodes, dl) + d.push(c));
        assert(child_text(nodes, cur) =~= texts_among(nodes, dl) + d);
    } else {
        lemma_create_append_frame(nodes, cur, KindModel::Text(seq![c]));
        let len = nodes.len() as usize;
        assert(n2[cur].children == kids.push(len));
        assert forall|i: int| 0 <= i < kids.len() implies nodes[#[trigger] kids[i] as int].kind
            == n2[kids[i] as int].kind by {
            assert(crate::dom::child_ok(nodes, cur, i));
        }
        lemma_texts_among_same(nodes, n2, kids);
        assert(kids.push(len).drop_last() =~= kids);
        assert(child_text(n2, cur) =~= texts_among(nodes, kids) + seq![c]);
    }
}

// ───────────────────────────── handlers (exec) ─────────────────────────────

/// Check if a character is a WHATWG whitespace character.
fn is_whitespace(c: char) -> (r: bool)
    ensures
        r == is_whitespace_char(c),
{
    c == '\t' || c == '\n' || c == '\x0C' || c == '\r' || c == ' '
}

fn head_void_exec(n: &Vec<char>) -> (r: bool)
    ensures
        r == head_void_name(n@),
{
    eq_str(n, "base") || eq_str(n, "link") || eq_str(n, "meta")
}

fn head_raw_exec(n: &Vec<char>) -> (r: bool)
    ensures
        r == head_raw_name(n@),
{
    eq_str(n, "style") || eq_str(n, "script")
}

fn doctype_valid_exec(dt: &DoctypeToken) -> (r: bool)
    ensures
        r == doctype_is_valid(dt@),
{
    let name_ok = match &dt.name {
        Some(n) => eq_str(n, "html"),
        None => false,
    };
    let sys_ok = match &dt.system_id {
        Some(x) => eq_str(x, "about:legacy-compat"),
        None => true,
    };
    name_ok && dt.public_id.is_none() && sys_ok
}

fn opt_to_string(o: &Option<Vec<char>>) -> (r: String)
    ensures
        r@ == or_empty(crate::tokenizer::opt_view(*o)),
{
    match o {
        Some(v) => chars_to_string(v),
        None => String::new(),
    }
}

fn element_named_exec(parser: &HtmlTreeConstructor, id: usize, name: &Vec<char>) -> (r: bool)
    requires
        id < parser@.nodes.len(),
    ensures
        r == element_named(parser@.nodes, id as int, name@),
{
    match parser.document.kind(id) {
        NodeKind::Element(e) => {
            let ln = str_to_chars(e.local_name.as_str());
            chars_eq(&ln, name)
        },
        _ => false,
    }
}

proof fn lemma_pop_wf(m: TreeModel)
    requires
        model_wf(m),
    ensures
        model_wf(model_pop(m)),
{
    let m2 = model_pop(m);
    assert forall|k: int| 0 <= k < m2.open.len() implies #[trigger] is_element(
        m2.nodes,
        m2.open[k] as int,
    ) by {
        assert(is_element(m.nodes, m.open[k] as int));
    }
}

/// Creates an element with the given tag name, appends it to the current
/// node and pushes it onto the open elements stack.
fn create_and_push(parser: &mut HtmlTreeConstructor, name: &str)
    requires
        old(parser).wf(),
        old(parser)@.nodes.len() + 1 < usize::MAX,
    ensures
        final(parser).wf(),
        final(parser)@ == model_insert_element(old(parser)@, named_element_kind(name@)),
        final(parser)@.nodes.len() == old(parser)@.nodes.len() + 1,
{
    insert_named_element(parser, name);
}

fn pop_open(parser: &mut HtmlTreeConstructor)
    requires
        old(parser).wf(),
    ensures
        final(parser).wf(),
        final(parser)@ == model_pop(old(parser)@),
        final(parser)@.nodes == old(parser)@.nodes,
{
    proof {
        lemma_pop_wf(parser@);
    }
    if parser.open_elements.len() > 0 {
        parser.open_elements.pop();
    }
}

fn handle_initial(parser: &mut HtmlTreeConstructor, token: &Token) -> (s: Step)
    requires
        old(parser).wf(),
        old(parser)@.mode == InsertionMode::Initial,
        old(parser)@.nodes.len() + 2 < usize::MAX,
    ensures
        final(parser).wf(),
        (final(parser)@, s) == spec_initial(old(parser)@, token@),
        final(parser)@.nodes.len() <= old(parser)@.nodes.len() + 1,
{
    match token {
        Token::Character(c) => {
            if is_whitespace(*c) {
                Step::Done
            } else {
                parser.insertion_mode = InsertionMode::BeforeHtml;
                Step::Reprocess
            }
        },
        Token::Comment(data) => {
            insert_comment_at(parser, 0, data);
            Step::Done
        },
        Token::Doctype(dt) => {
            if !doctype_valid_exec(dt) {
                parser.errors.push(ParseError::InvalidDoctype);
            }
            let name = opt_to_string(&dt.name);
            let public_id = opt_to_string(&dt.public_id);
            let system_id = opt_to_string(&dt.system_id);
            let kind = NodeKind::DocumentType(DocumentTypeData { name, public_id, system_id });
            proof {
                lemma_insert_node_wf(parser@, 0, kind@);
            }
            let id = parser.document.create_node(kind);
            parser.document.append_child(0, id);
            Step::Done
        },
        _ => {
            parser.insertion_mode = InsertionMode::BeforeHtml;
            Step::Reprocess
        },
    }
}

fn before_html_else_exec(parser: &mut HtmlTreeConstructor) -> (s: Step)
    requires
        old(parser).wf(),
        old(parser)@.nodes.len() + 2 < usize::MAX,
    ensures
        final(parser).wf(),
        (final(parser)@, s) == before_html_else(old(parser)@),
        final(parser)@.nodes.len() == old(parser)@.nodes.len() + 1,
{
    create_and_push(parser, "html");
    parser.insertion_mode = InsertionMode::BeforeHead;
    Step::Reprocess
}

fn handle_before_html(parser: &mut HtmlTreeConstructor, token: &Token) -> (s: Step)
    requires
        old(parser).wf(),
        old(parser)@.mode == InsertionMode::BeforeHtml,
        old(parser)@.nodes.len() + 2 < usize::MAX,
    ensures
        final(parser).wf(),
        (final(parser)@, s) == spec_before_html(old(parser)@, token@),
        final(parser)@.nodes.len() <= old(parser)@.nodes.len() + 1,
{
    match token {
        Token::Doctype(_) => {
            parser.errors.push(ParseError::Generic("unexpected DOCTYPE in before html"));
            Step::Done
        },
        Token::Comment(data) => {
            insert_comment_at(parser, 0, data);
            Step::Done
        },
        Token::Character(c) => {
            if is_whitespace(*c) {
                Step::Done
            } else {
                before_html_else_exec(parser)
            }
        },
        Token::Tag(tag) => {
            if tag.kind == TagKind::Start && eq_str(&tag.name, "html") {
                insert_element(parser, tag);
                parser.insertion_mode = InsertionMode::BeforeHead;
                Step::Done
            } else {
                before_html_else_exec(parser)
            }
        },
        Token::EOF => before_html_else_exec(parser),
    }
}

fn before_head_else_exec(parser: &mut HtmlTreeConstructor) -> (s: Step)
    requires
        old(parser).wf(),
        old(parser)@.nodes.len() + 2 < usize::MAX,
    ensures
        final(parser).wf(),
        (final(parser)@, s) == before_head_else(old(parser)@),
        final(parser)@.nodes.len() == old(parser)@.nodes.len() + 1,
{
    let id = parser.document.len();
    proof {
        lemma_current_in_range(parser@);
        lemma_insert_node_wf(parser@, current_of(parser@), named_element_kind("head"@));
    }
    create_and_push(parser, "head");
    parser.head_element = Some(id);
    parser.insertion_mode = InsertionMode::InHead;
    Step::Reprocess
}

fn handle_before_head(parser: &mut HtmlTreeConstructor, token: &Token) -> (s: Step)
    requires
        old(parser).wf(),
        old(parser)@.mode == InsertionMode::BeforeHead,
        old(parser)@.nodes.len() + 2 < usize::MAX,
    ensures
        final(parser).wf(),
        (final(parser)@, s) == spec_before_head(old(parser)@, token@),
        final(parser)@.nodes.len() <= old(parser)@.nodes.len() + 1,
{
    match token {
        Token::Character(c) => {
            if is_whitespace(*c) {
                Step::Done
            } else {
                before_head_else_exec(parser)
            }
        },
        Token::Comment(data) => {
            insert_comment(parser, data);
            Step::Done
        },
        Token::Doctype(_) => {
            parser.errors.push(ParseError::Generic("unexpected DOCTYPE in before head"));
            Step::Done
        },
        Token::Tag(tag) => {
            if tag.kind == TagKind::Start && eq_str(&tag.name, "html") {
                Step::Done
            } else if tag.kind == TagKind::Start && eq_str(&tag.name, "head") {
                let id = parser.document.len();
                proof {
                    lemma_current_in_range(parser@);
                    lemma_insert_node_wf(parser@, current_of(parser@), element_kind(tag@));
                }
                insert_element(parser, tag);
                parser.head_element = Some(id);
                parser.insertion_mode = InsertionMode::InHead;
                Step::Done
            } else {
                before_head_else_exec(parser)
            }
        },
        Token::EOF => before_head_else_exec(parser),
    }
}

fn in_head_else_exec(parser: &mut HtmlTreeConstructor) -> (s: Step)
    requires
        old(parser).wf(),
    ensures
        final(parser).wf(),
        (final(parser)@, s) == in_head_else(old(parser)@),
        final(parser)@.nodes == old(parser)@.nodes,
{
    pop_open(parser);
    parser.insertion_mode = InsertionMode::AfterHead;
    Step::Reprocess
}

fn text_element_exec(parser: &mut HtmlTreeConstructor, tag: &TagToken, st: LexState)
    requires
        old(parser).wf(),
        text_return_mode(old(parser)@.mode),
        old(parser)@.nodes.len() + 2 < usize::MAX,
    ensures
        final(parser).wf(),
        final(parser)@ == model_text_element(old(parser)@, tag@, st),
        final(parser)@.nodes.len() == old(parser)@.nodes.len() + 1,
{
    let mode = parser.insertion_mode;
    insert_element(parser, tag);
    parser.tokenizer_state = Some(st);
    parser.original_insertion_mode = Some(mode);
    parser.insertion_mode = InsertionMode::Text;
}

/// The in head rules; also used by the after head mode for `meta`.
fn handle_in_head(parser: &mut HtmlTreeConstructor, token: &Token) -> (s: Step)
    requires
        old(parser).wf(),
        text_return_mode(old(parser)@.mode),
        old(parser)@.nodes.len() + 2 < usize::MAX,
    ensures
        final(parser).wf(),
        (final(parser)@, s) == spec_in_head(old(parser)@, token@),
        final(parser)@.nodes.len() <= old(parser)@.nodes.len() + 1,
{
    match token {
        Token::Character(c) => {
            if is_whitespace(*c) {
                Step::Done
            } else {
                in_head_else_exec(parser)
            }
        },
        Token::Comment(data) => {
            insert_comment(parser, data);
            Step::Done
        },
        Token::Doctype(_) => {
            parser.errors.push(ParseError::Generic("unexpected DOCTYPE in head"));
            Step::Done
        },
        Token::Tag(tag) => {
            if tag.kind == TagKind::Start {
                if eq_str(&tag.name, "head") {
                    parser.errors.push(ParseError::Generic("duplicate head start tag"));
                    Step::Done
                } else if head_void_exec(&tag.name) {
                    insert_element(parser, tag);
                    pop_open(parser);
                    Step::Done
                } else if eq_str(&tag.name, "title") {
                    text_element_exec(parser, tag, LexState::RcData);
                    Step::Done
                } else if head_raw_exec(&tag.name) {
                    text_element_exec(parser, tag, LexState::RawText);
                    Step::Done
                } else {
                    Step::Done
                }
            } else if eq_str(&tag.name, "head") {
                pop_open(parser);
                parser.insertion_mode = InsertionMode::AfterHead;
                Step::Done
            } else {
                in_head_else_exec(parser)
            }
        },
        Token::EOF => in_head_else_exec(parser),
    }
}

fn handle_text(parser: &mut HtmlTreeConstructor, token: &Token) -> (s: Step)
    requires
        old(parser).wf(),
        old(parser)@.mode == InsertionMode::Text,
        old(parser)@.nodes.len() + 2 < usize::MAX,
    ensures
        final(parser).wf(),
        (final(parser)@, s) == spec_text(old(parser)@, token@),
        final(parser)@.nodes.len() <= old(parser)@.nodes.len() + 1,
{
    let ret = match parser.original_insertion_mode {
        Some(o) => o,
        None => InsertionMode::InBody,
    };
    match token {
        Token::Character(c) => {
            insert_character(parser, *c);
            Step::Done
        },
        Token::EOF => {
            parser.errors.push(ParseError::Generic("unexpected end of file in text"));
            pop_open(parser);
            parser.insertion_mode = ret;
            Step::Reprocess
        },
        Token::Tag(tag) => {
            if tag.kind == TagKind::End {
                pop_open(parser);
                parser.insertion_mode = ret;
                Step::Done
            } else {
                Step::Done
            }
        },
        _ => Step::Done,
    }
}

fn after_head_in_head_exec(parser: &mut HtmlTreeConstructor, token: &Token) -> (s: Step)
    requires
        old(parser).wf(),
        old(parser)@.mode == InsertionMode::AfterHead,
        old(parser)@.nodes.len() + 2 < usize::MAX,
    ensures
        final(parser).wf(),
        (final(parser)@, s) == after_head_in_head(old(parser)@, token@),
        final(parser)@.nodes.len() <= old(parser)@.nodes.len() + 1,
{
    match parser.head_element {
        Some(h) => {
            parser.errors.push(ParseError::Generic("meta start tag after head"));
            let idx = parser.open_elements.len();
            parser.open_elements.push(h);
            proof {
                let m = parser@;
                assert forall|k: int| 0 <= k < m.open.len() implies #[trigger] is_element(
                    m.nodes,
                    m.open[k] as int,
                ) by {
                    if k < idx {
                        assert(is_element(old(parser)@.nodes, old(parser)@.open[k] as int));
                    }
                }
            }
            let s = handle_in_head(parser, token);
            if idx < parser.open_elements.len() {
                let ghost m2 = parser@;
                parser.open_elements.remove(idx);
                proof {
                    let m3 = parser@;
                    assert forall|k: int| 0 <= k < m3.open.len() implies #[trigger] is_element(
                        m3.nodes,
                        m3.open[k] as int,
                    ) by {
                        if k < idx {
                            assert(m3.open[k] == m2.open[k]);
                            assert(is_element(m2.nodes, m2.open[k] as int));
                        } else {
                            assert(m3.open[k] == m2.open[k + 1]);
                            assert(is_element(m2.nodes, m2.open[k + 1] as int));
                        }
                    }
                }
            }
            s
        },
        None => Step::Done,
    }
}

fn after_head_else_exec(parser: &mut HtmlTreeConstructor) -> (s: Step)
    requires
        old(parser).wf(),
        old(parser)@.nodes.len() + 2 < usize::MAX,
    ensures
        final(parser).wf(),
        (final(parser)@, s) == after_head_else(old(parser)@),
        final(parser)@.nodes.len() == old(parser)@.nodes.len() + 1,
{
    create_and_push(parser, "body");
    parser.frameset_ok = false;
    parser.insertion_mode = InsertionMode::InBody;
    Step::Reprocess
}

fn handle_after_head(parser: &mut HtmlTreeConstructor, token: &Token) -> (s: Step)
    requires
        old(parser).wf(),
        old(parser)@.mode == InsertionMode::AfterHead,
        old(parser)@.nodes.len() + 2 < usize::MAX,
    ensures
        final(parser).wf(),
        (final(parser)@, s) == spec_after_head(old(parser)@, token@),
        final(parser)@.nodes.len() <= old(parser)@.nodes.len() + 1,
{
    match token {
        Token::Character(c) => {
            if is_whitespace(*c) {
                Step::Done
            } else {
                after_head_else_exec(parser)
            }
        },
        Token::Comment(data) => {
            insert_comment(parser, data);
            Step::Done
        },
        Token::Doctype(_) => {
            parser.errors.push(ParseError::Generic("unexpected DOCTYPE after head"));
            Step::Done
        },
        Token::Tag(tag) => {
            if tag.kind == TagKind::Start {
                if eq_str(&tag.name, "html") {
                    Step::Done
                } else if eq_str(&tag.name, "body") {
                    insert_element(parser, tag);
                    parser.frameset_ok = false;
                    parser.insertion_mode = InsertionMode::InBody;
                    Step::Done
                } else if eq_str(&tag.name, "frameset") {
                    insert_element(parser, tag);
                    parser.insertion_mode = InsertionMode::InFrameset;
                    Step::Done
                } else if eq_str(&tag.name, "meta") {
                    after_head_in_head_exec(parser, token)
                } else if eq_str(&tag.name, "head") {
                    parser.errors.push(ParseError::Generic("unexpected head start tag after head"));
                    Step::Done
                } else {
                    after_head_else_exec(parser)
                }
            } else {
                after_head_else_exec(parser)
            }
        },
        Token::EOF => after_head_else_exec(parser),
    }
}

fn handle_in_body(parser: &mut HtmlTreeConstructor, token: &Token) -> (s: Step)
    requires
        old(parser).wf(),
        old(parser)@.mode == InsertionMode::InBody,
        old(parser)@.nodes.len() + 2 < usize::MAX,
    ensures
        final(parser).wf(),
        (final(parser)@, s) == spec_in_body(old(parser)@, token@),
        final(parser)@.nodes.len() <= old(parser)@.nodes.len() + 1,
{
    match token {
        Token::Character(c) => {
            insert_character(parser, *c);
            Step::Done
        },
        Token::Comment(data) => {
            insert_comment(parser, data);
            Step::Done
        },
        _ => Step::Done,
    }
}

fn handle_in_frameset(parser: &mut HtmlTreeConstructor, token: &Token) -> (s: Step)
    requires
        old(parser).wf(),
        old(parser)@.mode == InsertionMode::InFrameset,
        old(parser)@.nodes.len() + 2 < usize::MAX,
    ensures
        final(parser).wf(),
        (final(parser)@, s) == spec_in_frameset(old(parser)@, token@),
        final(parser)@.nodes.len() <= old(parser)@.nodes.len() + 1,
{
    match token {
        Token::Character(c) => {
            if is_whitespace(*c) {
                insert_character(parser, *c);
            } else {
                parser.errors.push(ParseError::Generic("unexpected character in frameset"));
            }
            Step::Done
        },
        Token::Comment(data) => {
            insert_comment(parser, data);
            Step::Done
        },
        Token::EOF => Step::Done,
        Token::Tag(tag) => {
            if tag.kind == TagKind::Start && eq_str(&tag.name, "html") {
                Step::Done
            } else if tag.kind == TagKind::Start && eq_str(&tag.name, "frameset") {
                insert_element(parser, tag);
                Step::Done
            } else if tag.kind == TagKind::End && eq_str(&tag.name, "frameset") {
                if parser.open_elements.len() <= 1 {
                    parser.errors.push(ParseError::Generic("unexpected frameset end tag"));
                } else {
                    pop_open(parser);
                    let cur = parser.current_node();
                    proof {
                        lemma_current_in_range(parser@);
                    }
                    let frameset = str_to_chars("frameset");
                    if !element_named_exec(parser, cur, &frameset) {
                        parser.insertion_mode = InsertionMode::AfterFrameset;
                    }
                }
                Step::Done
            } else if tag.kind == TagKind::Start && eq_str(&tag.name, "frame") {
                insert_element(parser, tag);
                pop_open(parser);
                Step::Done
            } else {
                parser.errors.push(ParseError::Generic("unexpected tag in frameset"));
                Step::Done
            }
        },
        Token::Doctype(_) => {
            parser.errors.push(ParseError::Generic("unexpected DOCTYPE in frameset"));
            Step::Done
        },
    }
}

fn handle_after_frameset(parser: &mut HtmlTreeConstructor, token: &Token) -> (s: Step)
    requires
        old(parser).wf(),
        old(parser)@.mode == InsertionMode::AfterFrameset,
        old(parser)@.nodes.len() + 2 < usize::MAX,
    ensures
        final(parser).wf(),
        (final(parser)@, s) == spec_after_frameset(old(parser)@, token@),
        final(parser)@.nodes.len() <= old(parser)@.nodes.len() + 1,
{
    match token {
        Token::Character(c) => {
            if is_whitespace(*c) {
                insert_character(parser, *c);
            } else {
                parser.errors.push(ParseError::Generic("unexpected character after frameset"));
            }
            Step::Done
        },
        Token::Comment(data) => {
            insert_comment(parser, data);
            Step::Done
        },
        Token::EOF => Step::Done,
        Token::Tag(tag) => {
            if eq_str(&tag.name, "html") {
                Step::Done
            } else {
                parser.errors.push(ParseError::Generic("unexpected tag after frameset"));
                Step::Done
            }
        },
        Token::Doctype(_) => {
            parser.errors.push(ParseError::Generic("unexpected DOCTYPE after frameset"));
            Step::Done
        },
    }
}

/// Dispatches a token to the handler for the parser's current insertion
/// mode.
pub fn dispatch(parser: &mut HtmlTreeConstructor, token: &Token) -> (s: Step)
    requires
        old(parser).wf(),
        old(parser)@.nodes.len() + 2 < usize::MAX,
    ensures
        final(parser).wf(),
        (final(parser)@, s) == spec_dispatch(old(parser)@, token@),
        final(parser)@.nodes.len() <= old(parser)@.nodes.len() + 1,
{
    match parser.insertion_mode {
        InsertionMode::Initial => handle_initial(parser, token),
        InsertionMode::BeforeHtml => handle_before_html(parser, token),
        InsertionMode::BeforeHead => handle_before_head(parser, token),
        InsertionMode::InHead => handle_in_head(parser, token),
        InsertionMode::Text => handle_text(parser, token),
        InsertionMode::AfterHead => handle_after_head(parser, token),
        InsertionMode::InBody => handle_in_body(parser, token),
        InsertionMode::InFrameset => handle_in_frameset(parser, token),
        InsertionMode::AfterFrameset => handle_after_frameset(parser, token),
        _ => Step::Done,
    }
}

} // verus!
