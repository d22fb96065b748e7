//! The shape of the tree that construction builds.
//!
//! Whatever the input, the Document ends up with exactly one element child,
//! an `html` element, whose element children are exactly `head` and then
//! `body` (or `frameset`); the Document's other children are comments and
//! document types. [`shape_inv`] is the invariant, by insertion mode, that
//! carries this through every token; [`lemma_dispatch_shape`] shows that
//! each handler keeps it.
use vstd::prelude::*;
use crate::dom::{
    KindModel, NodeModel, element_children, lemma_create_append_frame, lemma_create_append_merged,
    lemma_push_text_frame, lemma_push_text_merged, model_create_append, text_merged, tree_wf,
};
use crate::text::{lemma_lower_seq_id, lower_seq};
use crate::tokenizer::{SpecToken, TagKind};
use super::dispatch::{
    Step, after_head_in_head, element_named, spec_after_frameset, spec_after_head,
    spec_before_head, spec_before_html, spec_dispatch, spec_in_body, spec_in_frameset,
    spec_in_head, spec_initial, spec_text,
};
use super::helpers::{lemma_current_in_range, lemma_insert_char_wf, model_insert_char};
use super::insertion_mode::InsertionMode;
use super::{TreeModel, current_of, is_element, model_wf};

verus! {

/// The insertion modes reached once the body (or frameset) exists.
pub open spec fn late_mode(mode: InsertionMode) -> bool {
    mode == InsertionMode::InBody || mode == InsertionMode::InFrameset || mode
        == InsertionMode::AfterFrameset
}

/// The Document's only element child is the bottom of the stack of open
/// elements, an `html` element.
pub open spec fn html_rooted(m: TreeModel) -> bool {
    &&& m.open.len() >= 1
    &&& element_children(m.nodes, 0) == seq![m.open[0]]
    &&& element_named(m.nodes, m.open[0] as int, "html"@)
}

/// The `html` element's only element child is the head element.
pub open spec fn head_only(m: TreeModel) -> bool {
    match m.head {
        Some(h) => {
            &&& element_children(m.nodes, m.open[0] as int) == seq![h]
            &&& element_named(m.nodes, h as int, "head"@)
            &&& m.open[0] < h
        },
        None => false,
    }
}

/// The element children of `html` are exactly a `head` and then a `body`
/// or a `frameset`.
pub open spec fn html_complete(nodes: Seq<NodeModel>, html: int) -> bool {
    let e = element_children(nodes, html);
    &&& e.len() == 2
    &&& element_named(nodes, e[0] as int, "head"@)
    &&& (element_named(nodes, e[1] as int, "body"@) || element_named(
        nodes,
        e[1] as int,
        "frameset"@,
    ))
}

/// A node that may be a child of the Document: an element, a comment or a
/// document type.
pub open spec fn document_child_kind(nodes: Seq<NodeModel>, c: int) -> bool {
    0 <= c < nodes.len() && (nodes[c].kind is Element || nodes[c].kind is Comment
        || nodes[c].kind is DocumentType)
}

/// Every child of the Document is an element, a comment or a document type.
pub open spec fn document_children_plain(nodes: Seq<NodeModel>) -> bool {
    forall|k: int|
        0 <= k < nodes[0].children.len() ==> #[trigger] document_child_kind(
            nodes,
            nodes[0].children[k] as int,
        )
}

/// The document of a finished parse: one `html` element under the Document,
/// whose element children are `head` and then `body` or `frameset`; the
/// Document's other children are comments and document types.
pub open spec fn document_shape(nodes: Seq<NodeModel>) -> bool {
    let e = element_children(nodes, 0);
    &&& e.len() == 1
    &&& element_named(nodes, e[0] as int, "html"@)
    &&& html_complete(nodes, e[0] as int)
    &&& document_children_plain(nodes)
}

/// Text siblings are merged, the Document's children are plain, and the
/// tree and the stack of open elements have the shape of the insertion
/// mode.
pub open spec fn shape_inv(m: TreeModel) -> bool {
    text_merged(m.nodes) && document_children_plain(m.nodes) && mode_shape(m)
}

/// The tree and the stack of open elements in each insertion mode.
pub open spec fn mode_shape(m: TreeModel) -> bool {
    match m.mode {
        InsertionMode::Initial | InsertionMode::BeforeHtml => m.open.len() == 0
            && element_children(m.nodes, 0).len() == 0,
        InsertionMode::BeforeHead => m.open.len() == 1 && html_rooted(m) && element_children(
            m.nodes,
            m.open[0] as int,
        ).len() == 0,
        InsertionMode::InHead => m.open.len() == 2 && html_rooted(m) && head_only(m) && m.head
            == Some(m.open[1]),
        InsertionMode::AfterHead => m.open.len() == 1 && html_rooted(m) && head_only(m),
        InsertionMode::Text => html_rooted(m) && m.original_mode == Some(InsertionMode::InHead)
            && m.open.len() == 3 && head_only(m) && m.head == Some(m.open[1]),
        InsertionMode::InBody => html_rooted(m) && html_complete(m.nodes, m.open[0] as int)
            && m.open.len() == 2 && element_named(m.nodes, m.open[1] as int, "body"@),
        InsertionMode::InFrameset => html_rooted(m) && html_complete(m.nodes, m.open[0] as int)
            && m.open.len() >= 2 && forall|k: int|
            1 <= k < m.open.len() ==> element_named(m.nodes, #[trigger] m.open[k] as int, "frameset"@),
        _ => html_rooted(m) && html_complete(m.nodes, m.open[0] as int),
    }
}

// ───────────────────────────── frame lemmas ─────────────────────────────

/// What creating and appending a node keeps and changes, in terms of
/// element names and element children.
proof fn lemma_grow(nodes: Seq<NodeModel>, p: int, kind: KindModel)
    requires
        tree_wf(nodes),
        0 <= p < nodes.len(),
        nodes.len() + 1 < usize::MAX,
    ensures
        ({
            let n2 = model_create_append(nodes, p, kind);
            &&& n2.len() == nodes.len() + 1
            &&& forall|x: int, nm: Seq<char>|
                0 <= x < nodes.len() ==> #[trigger] element_named(n2, x, nm) == element_named(
                    nodes,
                    x,
                    nm,
                )
            &&& forall|q: int|
                0 <= q < nodes.len() ==> #[trigger] element_children(n2, q) == if q == p
                    && kind is Element {
                    element_children(nodes, q).push(nodes.len() as usize)
                } else {
                    element_children(nodes, q)
                }
            &&& forall|nm: Seq<char>|
                #[trigger] element_named(n2, nodes.len() as int, nm) == (match kind {
                    KindModel::Element(e) => e.local_name == nm,
                    _ => false,
                })
            &&& element_children(n2, nodes.len() as int).len() == 0
            &&& text_merged(nodes) && !(kind is Text) ==> text_merged(n2)
            &&& document_children_plain(nodes) && (p != 0 || kind is Element || kind is Comment
                || kind is DocumentType) ==> document_children_plain(n2)
        }),
{
    lemma_create_append_frame(nodes, p, kind);
    let n2 = model_create_append(nodes, p, kind);
    assert(element_children(n2, nodes.len() as int) =~= Seq::empty());
    if document_children_plain(nodes) && (p != 0 || kind is Element || kind is Comment
        || kind is DocumentType) {
        assert forall|k: int| 0 <= k < n2[0].children.len() implies #[trigger] document_child_kind(
            n2,
            n2[0].children[k] as int,
        ) by {
            if p == 0 {
                assert(n2[0].children == nodes[0].children.push(nodes.len() as usize));
                if k < nodes[0].children.len() {
                    assert(document_child_kind(nodes, nodes[0].children[k] as int));
                    assert(n2[nodes[0].children[k] as int].kind == nodes[
                        nodes[0].children[k] as int
                    ].kind);
                }
            } else {
                assert(n2[0].children == nodes[0].children);
                assert(document_child_kind(nodes, nodes[0].children[k] as int));
                assert(n2[nodes[0].children[k] as int].kind == nodes[
                    nodes[0].children[k] as int
                ].kind);
            }
        }
    }
    if text_merged(nodes) && !(kind is Text) {
        lemma_create_append_merged(nodes, p, kind);
    }
}

/// Inserting a character changes no element name and no list of element
/// children.
proof fn lemma_char_frame(m: TreeModel, c: char)
    requires
        model_wf(m),
        m.nodes.len() + 1 < usize::MAX,
    ensures
        ({
            let n2 = model_insert_char(m, c).nodes;
            &&& n2.len() >= m.nodes.len()
            &&& forall|x: int, nm: Seq<char>|
                0 <= x < m.nodes.len() ==> #[trigger] element_named(n2, x, nm) == element_named(
                    m.nodes,
                    x,
                    nm,
                )
            &&& forall|q: int|
                0 <= q < m.nodes.len() ==> #[trigger] element_children(n2, q) == element_children(
                    m.nodes,
                    q,
                )
            &&& text_merged(m.nodes) ==> text_merged(n2)
            &&& document_children_plain(m.nodes) && m.open.len() >= 1 ==> document_children_plain(
                n2,
            )
        }),
{
    lemma_current_in_range(m);
    lemma_insert_char_wf(m, c);
    let cur = current_of(m);
    let kids = m.nodes[cur].children;
    if m.open.len() >= 1 {
        lemma_current_not_document(m);
    }
    if kids.len() > 0 && (kids.last() as int) < m.nodes.len() && m.nodes[kids.last() as int].kind is Text {
        let id = kids.last() as int;
        lemma_push_text_frame(m.nodes, id, c);
        if text_merged(m.nodes) {
            lemma_push_text_merged(m.nodes, id, c);
        }
        let n2 = model_insert_char(m, c).nodes;
        if document_children_plain(m.nodes) && m.open.len() >= 1 {
            assert(id != 0);
            assert(n2[0] == m.nodes[0]);
            assert forall|k: int| 0 <= k < n2[0].children.len() implies #[trigger] document_child_kind(
                n2,
                n2[0].children[k] as int,
            ) by {
                let x = m.nodes[0].children[k] as int;
                assert(document_child_kind(m.nodes, x));
                assert(n2[x].kind == m.nodes[x].kind);
            }
        }
    } else {
        lemma_grow(m.nodes, cur, KindModel::Text(seq![c]));
        if text_merged(m.nodes) {
            lemma_create_append_merged(m.nodes, cur, KindModel::Text(seq![c]));
        }
    }
}

/// The tag names the shape speaks of are already lower case.
proof fn lemma_names()
    ensures
        lower_seq("html"@) == "html"@,
        lower_seq("head"@) == "head"@,
        lower_seq("body"@) == "body"@,
        lower_seq("frameset"@) == "frameset"@,
{
    reveal_strlit("html");
    reveal_strlit("head");
    reveal_strlit("body");
    reveal_strlit("frameset");
    lemma_lower_seq_id("html"@);
    lemma_lower_seq_id("head"@);
    lemma_lower_seq_id("body"@);
    lemma_lower_seq_id("frameset"@);
}

/// The current node is an element other than the Document when the stack
/// of open elements is not empty.
proof fn lemma_current_not_document(m: TreeModel)
    requires
        model_wf(m),
        m.open.len() >= 1,
    ensures
        current_of(m) != 0,
        0 < current_of(m) < m.nodes.len(),
        is_element(m.nodes, current_of(m)),
{
    assert(is_element(m.nodes, m.open[m.open.len() - 1] as int));
}

proof fn lemma_shape_initial(m: TreeModel, t: SpecToken)
    requires
        model_wf(m),
        shape_inv(m),
        m.mode == InsertionMode::Initial,
        m.nodes.len() + 2 < usize::MAX,
    ensures
        shape_inv(spec_initial(m, t).0),
{
    match t {
        SpecToken::Comment(d) => {
            lemma_grow(m.nodes, 0, KindModel::Comment(d));
        },
        SpecToken::Doctype(dt) => {
            let kind = KindModel::DocumentType {
                name: crate::parser::dispatch::or_empty(dt.name),
                public_id: crate::parser::dispatch::or_empty(dt.public_id),
                system_id: crate::parser::dispatch::or_empty(dt.system_id),
            };
            lemma_grow(m.nodes, 0, kind);
        },
        _ => {},
    }
}

proof fn lemma_shape_before_html(m: TreeModel, t: SpecToken)
    requires
        model_wf(m),
        shape_inv(m),
        m.mode == InsertionMode::BeforeHtml,
        m.nodes.len() + 2 < usize::MAX,
    ensures
        shape_inv(spec_before_html(m, t).0),
{
    lemma_names();
    lemma_current_in_range(m);
    let n = m.nodes.len() as int;
    match t {
        SpecToken::Comment(d) => {
            lemma_grow(m.nodes, 0, KindModel::Comment(d));
        },
        SpecToken::Tag(g) => {
            lemma_grow(m.nodes, 0, crate::parser::helpers::element_kind(g));
            lemma_grow(m.nodes, 0, crate::parser::helpers::named_element_kind("html"@));
            let m2 = spec_before_html(m, t).0;
            if m2.mode == InsertionMode::BeforeHead {
                assert(element_children(m2.nodes, 0) =~= seq![n as usize]);
            }
        },
        _ => {
            lemma_grow(m.nodes, 0, crate::parser::helpers::named_element_kind("html"@));
            let m2 = spec_before_html(m, t).0;
            if m2.mode == InsertionMode::BeforeHead {
                assert(element_children(m2.nodes, 0) =~= seq![n as usize]);
            }
        },
    }
}

proof fn lemma_shape_before_head(m: TreeModel, t: SpecToken)
    requires
        model_wf(m),
        shape_inv(m),
        m.mode == InsertionMode::BeforeHead,
        m.nodes.len() + 2 < usize::MAX,
    ensures
        shape_inv(spec_before_head(m, t).0),
{
    lemma_names();
    lemma_current_not_document(m);
    let n = m.nodes.len() as int;
    let html = m.open[0] as int;
    assert(current_of(m) == html);
    match t {
        SpecToken::Comment(d) => {
            lemma_grow(m.nodes, html, KindModel::Comment(d));
        },
        SpecToken::Tag(g) => {
            lemma_grow(m.nodes, html, crate::parser::helpers::element_kind(g));
            lemma_grow(m.nodes, html, crate::parser::helpers::named_element_kind("head"@));
            let m2 = spec_before_head(m, t).0;
            if m2.mode == InsertionMode::InHead {
                assert(element_children(m2.nodes, html) =~= seq![n as usize]);
            }
        },
        _ => {
            lemma_grow(m.nodes, html, crate::parser::helpers::named_element_kind("head"@));
            let m2 = spec_before_head(m, t).0;
            if m2.mode == InsertionMode::InHead {
                assert(element_children(m2.nodes, html) =~= seq![n as usize]);
            }
        },
    }
}

proof fn lemma_shape_in_head(m: TreeModel, t: SpecToken)
    requires
        model_wf(m),
        shape_inv(m),
        m.mode == InsertionMode::InHead,
        m.nodes.len() + 2 < usize::MAX,
    ensures
        shape_inv(spec_in_head(m, t).0),
{
    lemma_names();
    lemma_current_not_document(m);
    let hd = m.open[1] as int;
    assert(current_of(m) == hd);
    match t {
        SpecToken::Character(c) => {
            lemma_char_frame(m, c);
        },
        SpecToken::Comment(d) => {
            lemma_grow(m.nodes, hd, KindModel::Comment(d));
        },
        SpecToken::Tag(g) => {
            lemma_grow(m.nodes, hd, crate::parser::helpers::element_kind(g));
        },
        _ => {},
    }
}

proof fn lemma_shape_text(m: TreeModel, t: SpecToken)
    requires
        model_wf(m),
        shape_inv(m),
        m.mode == InsertionMode::Text,
        m.nodes.len() + 2 < usize::MAX,
    ensures
        shape_inv(spec_text(m, t).0),
{
    match t {
        SpecToken::Character(c) => {
            lemma_char_frame(m, c);
        },
        _ => {},
    }
}

proof fn lemma_shape_after_head(m: TreeModel, t: SpecToken)
    requires
        model_wf(m),
        shape_inv(m),
        m.mode == InsertionMode::AfterHead,
        m.nodes.len() + 2 < usize::MAX,
    ensures
        shape_inv(spec_after_head(m, t).0),
{
    lemma_names();
    lemma_current_not_document(m);
    let n = m.nodes.len() as int;
    let html = m.open[0] as int;
    let h = m.head->0 as int;
    assert(current_of(m) == html);
    let body = crate::parser::helpers::named_element_kind("body"@);
    lemma_grow(m.nodes, html, body);
    match t {
        SpecToken::Comment(d) => {
            lemma_grow(m.nodes, html, KindModel::Comment(d));
        },
        SpecToken::Tag(g) => {
            lemma_grow(m.nodes, html, crate::parser::helpers::element_kind(g));
            if g.kind == TagKind::Start && g.name == "meta"@ {
                lemma_shape_after_head_in_head(m, t);
            }
        },
        _ => {},
    }
    let m2 = spec_after_head(m, t).0;
    if m2.mode == InsertionMode::InBody || m2.mode == InsertionMode::InFrameset {
        assert(element_children(m2.nodes, html) =~= seq![h as usize, n as usize]);
        assert(m2.open[1] == n as usize);
    }
}

/// A `meta` start tag after the head: processed by the in head rules with
/// the head element pushed for the duration.
proof fn lemma_shape_after_head_in_head(m: TreeModel, t: SpecToken)
    requires
        model_wf(m),
        shape_inv(m),
        m.mode == InsertionMode::AfterHead,
        m.nodes.len() + 2 < usize::MAX,
        t is Tag,
        t->Tag_0.kind == TagKind::Start,
        t->Tag_0.name == "meta"@,
    ensures
        shape_inv(after_head_in_head(m, t).0),
{
    lemma_names();
    reveal_strlit("meta");
    reveal_strlit("head");
    let g = t->Tag_0;
    let h = m.head->0;
    let m0 = crate::parser::helpers::model_error(
        m,
        crate::error::ParseError::Generic("meta start tag after head"),
    );
    let m1 = TreeModel { open: m0.open.push(h), ..m0 };
    assert(is_element(m.nodes, h as int));
    assert(model_wf(m1)) by {
        assert forall|k: int| 0 <= k < m1.open.len() implies #[trigger] is_element(
            m1.nodes,
            m1.open[k] as int,
        ) by {
            if k < m.open.len() {
                assert(is_element(m.nodes, m.open[k] as int));
            }
        }
    }
    assert(current_of(m1) == h as int);
    let kind = crate::parser::helpers::element_kind(g);
    lemma_grow(m.nodes, h as int, kind);
    let (m2, s) = spec_in_head(m1, t);
    assert(m2.open.len() >= 2);
    assert(m2.open[0] == m.open[0]);
    let m3 = after_head_in_head(m, t).0;
    assert(m3 == TreeModel { open: m2.open.remove(1), ..m2 });
    assert(m3.open[0] == m.open[0]);
}

/// Once the body exists, inserting a node that is not an element, or any
/// node below an element other than `html`, keeps the Document's single
/// `html` child and `html`'s element children.
proof fn lemma_late_grow(m: TreeModel, kind: KindModel)
    requires
        model_wf(m),
        html_rooted(m),
        html_complete(m.nodes, m.open[0] as int),
        m.nodes.len() + 1 < usize::MAX,
        text_merged(m.nodes),
        document_children_plain(m.nodes),
        !(kind is Text),
        !(kind is Element) || current_of(m) != m.open[0],
    ensures
        ({
            let n2 = model_create_append(m.nodes, current_of(m), kind);
            &&& element_children(n2, 0) == seq![m.open[0]]
            &&& element_named(n2, m.open[0] as int, "html"@)
            &&& html_complete(n2, m.open[0] as int)
            &&& text_merged(n2)
            &&& document_children_plain(n2)
            &&& forall|x: int, nm: Seq<char>|
                0 <= x < m.nodes.len() ==> #[trigger] element_named(n2, x, nm) == element_named(
                    m.nodes,
                    x,
                    nm,
                )
        }),
{
    lemma_current_not_document(m);
    let c = current_of(m);
    let html = m.open[0] as int;
    lemma_grow(m.nodes, c, kind);
    let n2 = model_create_append(m.nodes, c, kind);
    let e = element_children(m.nodes, html);
    let e2 = element_children(n2, html);
    assert(e2 == e);
    assert(element_named(n2, e[0] as int, "head"@));
}

/// Once the body exists, inserting a character keeps the shape.
proof fn lemma_late_char(m: TreeModel, c: char)
    requires
        model_wf(m),
        html_rooted(m),
        html_complete(m.nodes, m.open[0] as int),
        m.nodes.len() + 1 < usize::MAX,
        text_merged(m.nodes),
        document_children_plain(m.nodes),
    ensures
        ({
            let n2 = model_insert_char(m, c).nodes;
            &&& element_children(n2, 0) == seq![m.open[0]]
            &&& element_named(n2, m.open[0] as int, "html"@)
            &&& html_complete(n2, m.open[0] as int)
            &&& text_merged(n2)
            &&& document_children_plain(n2)
            &&& forall|x: int, nm: Seq<char>|
                0 <= x < m.nodes.len() ==> #[trigger] element_named(n2, x, nm) == element_named(
                    m.nodes,
                    x,
                    nm,
                )
        }),
{
    lemma_current_not_document(m);
    lemma_char_frame(m, c);
    let html = m.open[0] as int;
    let n2 = model_insert_char(m, c).nodes;
    let e = element_children(m.nodes, html);
    assert(element_children(n2, html) == e);
    assert(element_named(n2, e[0] as int, "head"@));
}

/// The stack above `html` in frameset holds `frameset` elements only, so
/// the stack is kept when the names of existing nodes are.
proof fn lemma_frameset_stack_kept(m: TreeModel, n2: Seq<NodeModel>)
    requires
        model_wf(m),
        forall|k: int|
            1 <= k < m.open.len() ==> element_named(m.nodes, #[trigger] m.open[k] as int, "frameset"@),
        forall|x: int, nm: Seq<char>|
            0 <= x < m.nodes.len() ==> #[trigger] element_named(n2, x, nm) == element_named(
                m.nodes,
                x,
                nm,
            ),
    ensures
        forall|k: int|
            1 <= k < m.open.len() ==> element_named(n2, #[trigger] m.open[k] as int, "frameset"@),
{
    assert forall|k: int| 1 <= k < m.open.len() implies element_named(
        n2,
        #[trigger] m.open[k] as int,
        "frameset"@,
    ) by {
        assert(element_named(m.nodes, m.open[k] as int, "frameset"@));
        assert(is_element(m.nodes, m.open[k] as int));
    }
}

proof fn lemma_shape_late(m: TreeModel, t: SpecToken)
    requires
        model_wf(m),
        shape_inv(m),
        late_mode(m.mode),
        m.nodes.len() + 2 < usize::MAX,
    ensures
        shape_inv(spec_dispatch(m, t).0),
{
    lemma_names();
    lemma_current_not_document(m);
    match t {
        SpecToken::Character(c) => {
            lemma_late_char(m, c);
            if m.mode == InsertionMode::InFrameset {
                lemma_frameset_stack_kept(m, model_insert_char(m, c).nodes);
            }
        },
        SpecToken::Comment(d) => {
            lemma_late_grow(m, KindModel::Comment(d));
            if m.mode == InsertionMode::InFrameset {
                lemma_frameset_stack_kept(
                    m,
                    model_create_append(m.nodes, current_of(m), KindModel::Comment(d)),
                );
            }
        },
        SpecToken::Tag(g) => {
            if m.mode == InsertionMode::InFrameset {
                lemma_shape_frameset_tag(m, t);
            }
        },
        _ => {},
    }
}

/// A tag in frameset: a `frameset` is pushed, a `frame` is inserted and
/// popped, `</frameset>` pops; the stack above `html` holds only
/// `frameset` elements.
proof fn lemma_shape_frameset_tag(m: TreeModel, t: SpecToken)
    requires
        model_wf(m),
        shape_inv(m),
        m.mode == InsertionMode::InFrameset,
        m.nodes.len() + 2 < usize::MAX,
        t is Tag,
    ensures
        shape_inv(spec_in_frameset(m, t).0),
{
    lemma_names();
    lemma_current_not_document(m);
    let g = t->Tag_0;
    let html = m.open[0] as int;
    let top = m.open[m.open.len() - 1] as int;
    assert(element_named(m.nodes, top, "frameset"@));
    assert(element_named(m.nodes, html, "html"@));
    reveal_strlit("frameset");
    reveal_strlit("html");
    assert("frameset"@.len() != "html"@.len());
    assert(top != html);
    let kind = crate::parser::helpers::element_kind(g);
    lemma_late_grow(m, kind);
    let n2 = model_create_append(m.nodes, current_of(m), kind);
    lemma_frameset_stack_kept(m, n2);
    let n = m.nodes.len() as int;
    let m2 = spec_in_frameset(m, t).0;
    if m2.mode == InsertionMode::InFrameset {
        assert forall|k: int| 1 <= k < m2.open.len() implies element_named(
            m2.nodes,
            #[trigger] m2.open[k] as int,
            "frameset"@,
        ) by {
            if k < m.open.len() {
                assert(m2.open[k] == m.open[k]);
                assert(element_named(m.nodes, m.open[k] as int, "frameset"@));
            } else {
                assert(m2.open[k] == n as usize);
            }
        }
    }
}

/// Every handler keeps the shape invariant.
pub proof fn lemma_dispatch_shape(m: TreeModel, t: SpecToken)
    requires
        model_wf(m),
        shape_inv(m),
        m.nodes.len() + 2 < usize::MAX,
    ensures
        shape_inv(spec_dispatch(m, t).0),
{
    match m.mode {
        InsertionMode::Initial => lemma_shape_initial(m, t),
        InsertionMode::BeforeHtml => lemma_shape_before_html(m, t),
        InsertionMode::BeforeHead => lemma_shape_before_head(m, t),
        InsertionMode::InHead => lemma_shape_in_head(m, t),
        InsertionMode::Text => lemma_shape_text(m, t),
        InsertionMode::AfterHead => lemma_shape_after_head(m, t),
        InsertionMode::InBody | InsertionMode::InFrameset | InsertionMode::AfterFrameset => {
            lemma_shape_late(m, t)
        },
        _ => {},
    }
}

/// The end-of-file token is consumed only in a late mode, which it leaves
/// as it is.
pub proof fn lemma_dispatch_eof(m: TreeModel)
    requires
        model_wf(m),
    ensures
        spec_dispatch(m, SpecToken::EOF).1 == Step::Done ==> late_mode(m.mode)
            && spec_dispatch(m, SpecToken::EOF).0.mode == m.mode,
{
}

/// The state of a finished parse has the document shape, with Text
/// siblings merged.
pub proof fn lemma_late_document_shape(m: TreeModel)
    requires
        shape_inv(m),
        late_mode(m.mode),
    ensures
        document_shape(m.nodes),
        text_merged(m.nodes),
{
}

/// A new tree constructor over an empty document meets the invariant.
pub proof fn lemma_initial_shape(m: TreeModel)
    requires
        m.mode == InsertionMode::Initial,
        m.open.len() == 0,
        m.nodes == crate::dom::empty_document(),
    ensures
        shape_inv(m),
{
    assert(element_children(m.nodes, 0) =~= Seq::empty());
    assert(m.nodes[0].children.len() == 0);
}

} // verus!
