//! Tree construction helper algorithms.
//!
//! These functions implement "create an element for the token", "insert a
//! node", "insert a character" and "insert a comment" from WHATWG
//! §13.2.6.1. They are used by the insertion mode handlers in
//! [`super::dispatch`].
use vstd::prelude::*;
use crate::dom::{
    Attribute, ElementData, KindModel, NodeKind, attributes_view, html_element_model,
    lemma_create_append_wf, lemma_push_text_wf, model_append, model_create, model_create_append,
    model_push_text, };
use crate::error::ParseError;
use crate::text::{chars_to_string, lower_seq};
use crate::tokenizer::{SpecTag, TagToken, attrs_view};
use super::{HtmlTreeConstructor, TreeModel, current_of, is_element, model_wf};

verus! {

/// The element created for a start tag token: HTML namespace, the token's
/// name and attributes.
pub open spec fn element_kind(tag: SpecTag) -> KindModel {
    KindModel::Element(html_element_model(lower_seq(tag.name), tag.attrs))
}

/// An HTML element with the given name and no attributes.
pub open spec fn named_element_kind(name: Seq<char>) -> KindModel {
    KindModel::Element(html_element_model(lower_seq(name), Seq::empty()))
}

/// Inserts a new node of the given kind at the current node.
pub open spec fn model_insert_node(m: TreeModel, kind: KindModel) -> TreeModel {
    TreeModel { nodes: model_create_append(m.nodes, current_of(m), kind), ..m }
}

/// "Insert an HTML element": a new element at the current node, pushed onto
/// the stack of open elements.
pub open spec fn model_insert_element(m: TreeModel, kind: KindModel) -> TreeModel {
    TreeModel {
        nodes: model_create_append(m.nodes, current_of(m), kind),
        open: m.open.push(m.nodes.len() as usize),
        ..m
    }
}

/// "Insert a character": appended to the current node's last child when it
/// is a Text node, otherwise as a new Text node.
pub open spec fn model_insert_char(m: TreeModel, c: char) -> TreeModel {
    let cur = current_of(m);
    let kids = m.nodes[cur].children;
    if kids.len() > 0 && (kids.last() as int) < m.nodes.len() && m.nodes[kids.last() as int].kind is Text {
        TreeModel { nodes: model_push_text(m.nodes, kids.last() as int, c), ..m }
    } else {
        TreeModel { nodes: model_create_append(m.nodes, cur, KindModel::Text(seq![c])), ..m }
    }
}

/// "Insert a comment" at the current node.
pub open spec fn model_insert_comment(m: TreeModel, data: Seq<char>) -> TreeModel {
    model_insert_node(m, KindModel::Comment(data))
}

/// "Insert a comment" as the last child of `target`.
pub open spec fn model_insert_comment_at(m: TreeModel, target: int, data: Seq<char>) -> TreeModel {
    TreeModel { nodes: model_create_append(m.nodes, target, KindModel::Comment(data)), ..m }
}

/// Records a parse error.
pub open spec fn model_error(m: TreeModel, e: ParseError) -> TreeModel {
    TreeModel { errors: m.errors.push(e), ..m }
}

/// Pops the current node off the stack of open elements.
pub open spec fn model_pop(m: TreeModel) -> TreeModel {
    if m.open.len() > 0 {
        TreeModel { open: m.open.drop_last(), ..m }
    } else {
        m
    }
}

pub proof fn lemma_current_in_range(m: TreeModel)
    requires
        model_wf(m),
    ensures
        0 <= current_of(m) < m.nodes.len(),
{
    if m.open.len() > 0 {
        assert(is_element(m.nodes, m.open[m.open.len() - 1] as int));
    }
}

/// Inserting a node keeps the constructor's invariant and the kinds of the
/// existing nodes.
pub proof fn lemma_insert_node_wf(m: TreeModel, parent: int, kind: KindModel)
    requires
        model_wf(m),
        0 <= parent < m.nodes.len(),
        m.nodes.len() + 1 < usize::MAX,
        !(kind is Document),
    ensures
        model_wf(TreeModel { nodes: model_create_append(m.nodes, parent, kind), ..m }),
        forall|i: int|
            0 <= i < m.nodes.len() ==> (#[trigger] model_create_append(m.nodes, parent, kind)[i]).kind
                == m.nodes[i].kind,
        model_create_append(m.nodes, parent, kind)[m.nodes.len() as int].kind == kind,
{
    lemma_create_append_wf(m.nodes, parent, kind);
    let n2 = model_create_append(m.nodes, parent, kind);
    let m2 = TreeModel { nodes: n2, ..m };
    assert forall|k: int| 0 <= k < m2.open.len() implies #[trigger] is_element(
        m2.nodes,
        m2.open[k] as int,
    ) by {
        assert(is_element(m.nodes, m.open[k] as int));
    }
}

pub proof fn lemma_insert_element_wf(m: TreeModel, kind: KindModel)
    requires
        model_wf(m),
        m.nodes.len() + 1 < usize::MAX,
        kind is Element,
    ensures
        model_wf(model_insert_element(m, kind)),
{
    lemma_current_in_range(m);
    lemma_insert_node_wf(m, current_of(m), kind);
    let m2 = model_insert_element(m, kind);
    assert forall|k: int| 0 <= k < m2.open.len() implies #[trigger] is_element(
        m2.nodes,
        m2.open[k] as int,
    ) by {
        if k < m.open.len() {
            assert(is_element(m.nodes, m.open[k] as int));
        }
    }
}

pub proof fn lemma_insert_char_wf(m: TreeModel, c: char)
    requires
        model_wf(m),
        m.nodes.len() + 1 < usize::MAX,
    ensures
        model_wf(model_insert_char(m, c)),
        model_insert_char(m, c).nodes.len() <= m.nodes.len() + 1,
{
    lemma_current_in_range(m);
    let cur = current_of(m);
    let kids = m.nodes[cur].children;
    if kids.len() > 0 && (kids.last() as int) < m.nodes.len() && m.nodes[kids.last() as int].kind is Text {
        let id = kids.last() as int;
        lemma_push_text_wf(m.nodes, id, c);
        let m2 = model_insert_char(m, c);
        assert forall|k: int| 0 <= k < m2.open.len() implies #[trigger] is_element(
            m2.nodes,
            m2.open[k] as int,
        ) by {
            assert(is_element(m.nodes, m.open[k] as int));
        }
    } else {
        lemma_insert_node_wf(m, cur, KindModel::Text(seq![c]));
    }
}

fn convert_attrs(token: &TagToken) -> (a: Vec<Attribute>)
    ensures
        attributes_view(a@) == attrs_view(token.attrs@),
{
    let mut a: Vec<Attribute> = Vec::new();
    let mut k: usize = 0;
    while k < token.attrs.len()
        invariant
            k <= token.attrs.len(),
            a@.len() == k,
            forall|i: int|
                0 <= i < k ==> (#[trigger] a@[i]).local_name@ == token.attrs@[i].name@
                    && a@[i].value@ == token.attrs@[i].value@,
        decreases token.attrs.len() - k,
    {
        let name = chars_to_string(&token.attrs[k].name);
        let value = chars_to_string(&token.attrs[k].value);
        a.push(Attribute { local_name: name, value });
        k = k + 1;
    }
    assert(attributes_view(a@) =~= attrs_view(token.attrs@));
    a
}

/// Create an element for a start tag token (§13.2.6.1): HTML namespace,
/// the token's name and attributes. The element is created detached.
pub fn create_element_for_token(parser: &mut HtmlTreeConstructor, token: &TagToken) -> (id: usize)
    requires
        old(parser)@.nodes.len() + 1 < usize::MAX,
    ensures
        id == old(parser)@.nodes.len(),
        final(parser)@ == (TreeModel {
            nodes: model_create(old(parser)@.nodes, element_kind(token@)),
            ..old(parser)@
        }),
{
    let attrs = convert_attrs(token);
    let data = ElementData::from_chars(&token.name, attrs);
    parser.document.create_node(NodeKind::Element(data))
}

/// Insert a node at the appropriate place for inserting a node
/// (§13.2.6.1): as the last child of the current node. (Foster parenting
/// is never active: table insertion modes are not implemented.)
pub fn insert_node(parser: &mut HtmlTreeConstructor, node: usize)
    requires
        current_of(old(parser)@) < node < old(parser)@.nodes.len(),
    ensures
        final(parser)@ == (TreeModel {
            nodes: model_append(old(parser)@.nodes, current_of(old(parser)@), node as int),
            ..old(parser)@
        }),
{
    let current = parser.current_node();
    parser.document.append_child(current, node);
}

/// Insert an HTML element for the token (§13.2.6.1): create it, insert it
/// at the current node and push it onto the stack of open elements.
pub fn insert_element(parser: &mut HtmlTreeConstructor, token: &TagToken)
    requires
        old(parser).wf(),
        old(parser)@.nodes.len() + 1 < usize::MAX,
    ensures
        final(parser).wf(),
        final(parser)@ == model_insert_element(old(parser)@, element_kind(token@)),
        final(parser)@.nodes.len() == old(parser)@.nodes.len() + 1,
{
    proof {
        lemma_current_in_range(parser@);
        lemma_insert_element_wf(parser@, element_kind(token@));
    }
    let element = create_element_for_token(parser, token);
    insert_node(parser, element);
    parser.open_elements.push(element);
}

/// Create an HTML element with the given name and no attributes, insert it
/// at the current node and push it onto the stack of open elements.
pub fn insert_named_element(parser: &mut HtmlTreeConstructor, name: &str)
    requires
        old(parser).wf(),
        old(parser)@.nodes.len() + 1 < usize::MAX,
    ensures
        final(parser).wf(),
        final(parser)@ == model_insert_element(old(parser)@, named_element_kind(name@)),
        final(parser)@.nodes.len() == old(parser)@.nodes.len() + 1,
{
    proof {
        lemma_current_in_range(parser@);
        lemma_insert_element_wf(parser@, named_element_kind(name@));
    }
    let data = ElementData::new_html(name, Vec::new());
    proof {
        assert(attributes_view(Seq::<Attribute>::empty()) =~= Seq::empty());
    }
    let element = parser.document.create_node(NodeKind::Element(data));
    insert_node(parser, element);
    parser.open_elements.push(element);
}

/// Insert a character (§13.2.6.1): if the current node's last child is a
/// Text node, the character is appended to its data; otherwise a new Text
/// node is inserted.
pub fn insert_character(parser: &mut HtmlTreeConstructor, c: char)
    requires
        old(parser).wf(),
        old(parser)@.nodes.len() + 1 < usize::MAX,
    ensures
        final(parser).wf(),
        final(parser)@ == model_insert_char(old(parser)@, c),
        final(parser)@.nodes.len() <= old(parser)@.nodes.len() + 1,
{
    proof {
        lemma_current_in_range(parser@);
        lemma_insert_char_wf(parser@, c);
    }
    let current = parser.current_node();
    let last_child = parser.document.last_child(current);
    if let Some(child) = last_child {
        if child < parser.document.len() {
            let is_text = match parser.document.kind(child) {
                NodeKind::Text(_) => true,
                _ => false,
            };
            if is_text {
                parser.document.push_text(child, c);
                return;
            }
        }
    }
    let mut data: Vec<char> = Vec::new();
    data.push(c);
    proof {
        assert(data@ =~= seq![c]);
    }
    let text = parser.document.create_node(NodeKind::Text(data));
    parser.document.append_child(current, text);
}

/// Insert a comment as a child of the current node (§13.2.6.1).
pub fn insert_comment(parser: &mut HtmlTreeConstructor, data: &Vec<char>)
    requires
        old(parser).wf(),
        old(parser)@.nodes.len() + 1 < usize::MAX,
    ensures
        final(parser).wf(),
        final(parser)@ == model_insert_comment(old(parser)@, data@),
        final(parser)@.nodes.len() == old(parser)@.nodes.len() + 1,
{
    let current = parser.current_node();
    proof {
        lemma_current_in_range(parser@);
    }
    insert_comment_at(parser, current, data);
}

/// Insert a comment as the last child of `target` (used by the insertion
/// modes that put comments on the Document).
pub fn insert_comment_at(parser: &mut HtmlTreeConstructor, target: usize, data: &Vec<char>)
    requires
        old(parser).wf(),
        target < old(parser)@.nodes.len(),
        old(parser)@.nodes.len() + 1 < usize::MAX,
    ensures
        final(parser).wf(),
        final(parser)@ == model_insert_comment_at(old(parser)@, target as int, data@),
        final(parser)@.nodes.len() == old(parser)@.nodes.len() + 1,
{
    proof {
        lemma_insert_node_wf(parser@, target as int, KindModel::Comment(data@));
    }
    let s = chars_to_string(data);
    let comment = parser.document.create_node(NodeKind::Comment(s));
    parser.document.append_child(target, comment);
}

} // verus!
