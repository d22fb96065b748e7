//! Document Object Model: nodes, elements and the document tree
//! (DOM Living Standard §4–§6).
//!
//! A [`Document`] owns its nodes in an arena; a node is named by its index.
//! Index 0 is the Document node. The tree is kept well-formed
//! ([`tree_wf`]): a node's parent always has a smaller index than the node,
//! and parent/child links agree in both directions.
use vstd::prelude::*;
use crate::text::{
    chars_to_string, chars_to_upper_string, eq_ignore_ascii_case, eq_ci_str, lower_seq,
    str_to_chars, upper_seq,
};

verus! {

// ───────────────────────── namespaces, attributes ─────────────────────────

/// Namespace of an element (Infra §8).
#[derive(Clone, Copy, Debug, PartialEq, Eq, Structural)]
pub enum Namespace {
    Html,
    MathMl,
    Svg,
    /// No namespace.
    Null,
}

/// The namespace URI of a namespace, as a character sequence.
pub open spec fn namespace_uri_of(ns: Namespace) -> Option<Seq<char>> {
    match ns {
        Namespace::Html => Some("http://www.w3.org/1999/xhtml"@),
        Namespace::MathMl => Some("http://www.w3.org/1998/Math/MathML"@),
        Namespace::Svg => Some("http://www.w3.org/2000/svg"@),
        Namespace::Null => None,
    }
}

impl Namespace {
    /// The namespace URI (`None` for the null namespace).
    pub fn uri(&self) -> (r: Option<&'static str>)
        ensures
            match r {
                Some(s) => namespace_uri_of(*self) == Some(s@),
                None => namespace_uri_of(*self) is None,
            },
    {
        match self {
            Namespace::Html => Some("http://www.w3.org/1999/xhtml"),
            Namespace::MathMl => Some("http://www.w3.org/1998/Math/MathML"),
            Namespace::Svg => Some("http://www.w3.org/2000/svg"),
            Namespace::Null => None,
        }
    }
}

/// An attribute of an element (DOM §4.9.2).
#[derive(Clone, Debug)]
pub struct Attribute {
    pub local_name: String,
    pub value: String,
}

impl Attribute {
    /// A new attribute with the given name and value.
    pub fn new(local_name: &str, value: &str) -> (a: Attribute)
        ensures
            a.local_name@ == local_name@,
            a.value@ == value@,
    {
        Attribute { local_name: String::from_str(local_name), value: String::from_str(value) }
    }
}

pub open spec fn attributes_view(a: Seq<Attribute>) -> Seq<(Seq<char>, Seq<char>)> {
    a.map_values(|x: Attribute| (x.local_name@, x.value@))
}

// ───────────────────────────── ElementData ─────────────────────────────

/// Mathematical model of an element's data.
pub struct ElementModel {
    pub local_name: Seq<char>,
    pub namespace: Namespace,
    pub namespace_uri: Option<Seq<char>>,
    pub prefix: Option<Seq<char>>,
    pub attributes: Seq<(Seq<char>, Seq<char>)>,
}

pub open spec fn opt_string_view(o: Option<String>) -> Option<Seq<char>> {
    match o {
        Some(s) => Some(s@),
        None => None,
    }
}

/// Data carried by an Element node (DOM §4.9).
#[derive(Clone, Debug)]
pub struct ElementData {
    /// Local name (lower-case in the HTML namespace, e.g. `"div"`).
    pub local_name: String,
    /// Namespace.
    pub namespace: Namespace,
    /// Namespace URI (matches `namespace`).
    pub namespace_uri: Option<String>,
    /// Namespace prefix (e.g. `svg` in `svg:rect`); `None` in HTML.
    pub prefix: Option<String>,
    /// Attributes in document order.
    pub attributes: Vec<Attribute>,
}

impl View for ElementData {
    type V = ElementModel;

    open spec fn view(&self) -> ElementModel {
        ElementModel {
            local_name: self.local_name@,
            namespace: self.namespace,
            namespace_uri: opt_string_view(self.namespace_uri),
            prefix: opt_string_view(self.prefix),
            attributes: attributes_view(self.attributes@),
        }
    }
}

/// The HTML element model with the given local name and attributes.
pub open spec fn html_element_model(
    local_name: Seq<char>,
    attributes: Seq<(Seq<char>, Seq<char>)>,
) -> ElementModel {
    ElementModel {
        local_name,
        namespace: Namespace::Html,
        namespace_uri: namespace_uri_of(Namespace::Html),
        prefix: None,
        attributes,
    }
}

/// An element's `nodeName` (upper-cased local name in the HTML namespace).
pub open spec fn element_node_name(e: ElementModel) -> Seq<char> {
    match e.namespace {
        Namespace::Html => upper_seq(e.local_name),
        _ => e.local_name,
    }
}

/// Outside the HTML namespace an element's `nodeName` is its local name,
/// letter case kept; in the HTML namespace it is the local name
/// upper-cased: as long, equal to it ignoring ASCII case, and without ASCII
/// lower-case letters.
pub proof fn lemma_element_node_name(e: ElementModel)
    ensures
        e.namespace != Namespace::Html ==> element_node_name(e) == e.local_name,
        e.namespace == Namespace::Html ==> ({
            let n = element_node_name(e);
            &&& n.len() == e.local_name.len()
            &&& crate::text::eq_ignore_ascii_case(n, e.local_name)
            &&& forall|k: int| 0 <= k < n.len() ==> !crate::text::is_ascii_lower(#[trigger] n[k])
        }),
{
    if e.namespace == Namespace::Html {
        let l = e.local_name;
        let n = element_node_name(e);
        assert forall|k: int| 0 <= k < n.len() implies !crate::text::is_ascii_lower(
            #[trigger] n[k],
        ) && crate::text::lower_char(n[k]) == crate::text::lower_char(l[k]) by {
            let c = l[k];
            assert(n[k] == crate::text::upper_char(c));
            if crate::text::is_ascii_lower(c) {
                let u = ((c as u32) - 32) as char;
                assert(n[k] == u);
                assert('A' <= u && u <= 'Z');
                assert(((u as u32) + 32) as char == c);
            }
        }
        assert(crate::text::lower_seq(n) =~= crate::text::lower_seq(l));
    }
}

/// Index of the first attribute whose name equals `name` ignoring ASCII
/// case.
pub open spec fn find_attr_ci(attrs: Seq<(Seq<char>, Seq<char>)>, name: Seq<char>) -> Option<int>
    decreases attrs.len(),
{
    if attrs.len() == 0 {
        None
    } else if eq_ignore_ascii_case(attrs[0].0, name) {
        Some(0)
    } else {
        match find_attr_ci(attrs.drop_first(), name) {
            Some(k) => Some(k + 1),
            None => None,
        }
    }
}

proof fn lemma_find_attr_ci_step(attrs: Seq<(Seq<char>, Seq<char>)>, name: Seq<char>, k: int)
    requires
        0 <= k < attrs.len(),
        forall|m: int| 0 <= m < k ==> !eq_ignore_ascii_case(#[trigger] attrs[m].0, name),
    ensures
        eq_ignore_ascii_case(attrs[k].0, name) ==> find_attr_ci(attrs, name) == Some(k),
        !eq_ignore_ascii_case(attrs[k].0, name) ==> find_attr_ci(attrs, name) == match find_attr_ci(
            attrs.subrange(k + 1, attrs.len() as int),
            name,
        ) {
            Some(j) => Some(j + k + 1),
            None => None::<int>,
        },
    decreases k,
{
    if k > 0 {
        assert(!eq_ignore_ascii_case(attrs[0].0, name));
        let t = attrs.drop_first();
        assert forall|m: int| 0 <= m < k - 1 implies !eq_ignore_ascii_case(#[trigger] t[m].0, name) by {
            assert(t[m] == attrs[m + 1]);
        }
        lemma_find_attr_ci_step(t, name, k - 1);
        assert(t.subrange(k, t.len() as int) == attrs.subrange(k + 1, attrs.len() as int));
    } else {
        assert(attrs.subrange(1, attrs.len() as int) == attrs.drop_first());
    }
}

proof fn lemma_find_attr_ci_none(attrs: Seq<(Seq<char>, Seq<char>)>, name: Seq<char>)
    requires
        forall|m: int| 0 <= m < attrs.len() ==> !eq_ignore_ascii_case(#[trigger] attrs[m].0, name),
    ensures
        find_attr_ci(attrs, name) is None,
    decreases attrs.len(),
{
    if attrs.len() > 0 {
        let t = attrs.drop_first();
        assert forall|m: int| 0 <= m < t.len() implies !eq_ignore_ascii_case(#[trigger] t[m].0, name) by {
            assert(t[m] == attrs[m + 1]);
        }
        lemma_find_attr_ci_none(t, name);
    }
}

/// Attribute lookup ignores the ASCII case of the name asked for.
pub proof fn lemma_attr_case_insensitive(
    attrs: Seq<(Seq<char>, Seq<char>)>,
    n1: Seq<char>,
    n2: Seq<char>,
)
    requires
        eq_ignore_ascii_case(n1, n2),
    ensures
        find_attr_ci(attrs, n1) == find_attr_ci(attrs, n2),
    decreases attrs.len(),
{
    if attrs.len() > 0 {
        lemma_attr_case_insensitive(attrs.drop_first(), n1, n2);
    }
}

fn string_from_opt_str(s: Option<&'static str>) -> (r: Option<String>)
    ensures
        opt_string_view(r) == match s {
            Some(x) => Some(x@),
            None => None::<Seq<char>>,
        },
{
    match s {
        Some(x) => Some(String::from_str(x)),
        None => None,
    }
}

impl ElementData {
    /// An element in the HTML namespace; the local name is ASCII
    /// lower-cased.
    pub fn new_html(local_name: &str, attributes: Vec<Attribute>) -> (e: Self)
        ensures
            e@ == html_element_model(lower_seq(local_name@), attributes_view(attributes@)),
    {
        let chars = str_to_chars(local_name);
        Self::from_chars(&chars, attributes)
    }

    /// An element in the HTML namespace whose local name is given as
    /// characters (ASCII lower-cased).
    pub fn from_chars(local_name: &Vec<char>, attributes: Vec<Attribute>) -> (e: Self)
        ensures
            e@ == html_element_model(lower_seq(local_name@), attributes_view(attributes@)),
    {
        let name = crate::text::chars_to_lower_string(local_name);
        let uri = string_from_opt_str(Namespace::Html.uri());
        ElementData {
            local_name: name,
            namespace: Namespace::Html,
            namespace_uri: uri,
            prefix: None,
            attributes,
        }
    }

    /// An element in the given namespace (the local name is kept as is).
    pub fn with_namespace(
        local_name: String,
        namespace: Namespace,
        prefix: Option<String>,
        attributes: Vec<Attribute>,
    ) -> (e: Self)
        ensures
            e@ == (ElementModel {
                local_name: local_name@,
                namespace,
                namespace_uri: namespace_uri_of(namespace),
                prefix: opt_string_view(prefix),
                attributes: attributes_view(attributes@),
            }),
    {
        let uri = string_from_opt_str(namespace.uri());
        ElementData { local_name, namespace_uri: uri, namespace, prefix, attributes }
    }

    /// The element's `nodeName`: upper-cased local name in the HTML
    /// namespace, the local name otherwise.
    pub fn node_name(&self) -> (r: String)
        ensures
            r@ == element_node_name(self@),
    {
        match self.namespace {
            Namespace::Html => {
                let chars = str_to_chars(self.local_name.as_str());
                chars_to_upper_string(&chars)
            },
            _ => self.local_name.clone(),
        }
    }

    /// The value of the first attribute whose name matches `name`, ignoring
    /// ASCII case.
    pub fn get_attribute(&self, name: &str) -> (r: Option<&str>)
        ensures
            match find_attr_ci(self@.attributes, name@) {
                Some(k) => r is Some && r.unwrap()@ == self@.attributes[k].1,
                None => r is None,
            },
    {
        let ghost attrs = self@.attributes;
        let mut k: usize = 0;
        while k < self.attributes.len()
            invariant
                attrs == attributes_view(self.attributes@),
                k <= self.attributes.len(),
                forall|m: int| 0 <= m < k ==> !eq_ignore_ascii_case(#[trigger] attrs[m].0, name@),
            decreases self.attributes.len() - k,
        {
            let a = &self.attributes[k];
            let chars = str_to_chars(a.local_name.as_str());
            if eq_ci_str(&chars, name) {
                proof {
                    lemma_find_attr_ci_step(attrs, name@, k as int);
                }
                return Some(a.value.as_str());
            }
            proof {
                lemma_find_attr_ci_step(attrs, name@, k as int);
            }
            k = k + 1;
        }
        proof {
            lemma_find_attr_ci_none(attrs, name@);
        }
        None
    }
}

// ───────────────────────────── nodes ─────────────────────────────

/// The type of a node (DOM §4.4 `nodeType`).
#[derive(Clone, Copy, Debug, PartialEq, Eq, Structural)]
pub enum NodeType {
    Element,
    Text,
    Comment,
    Document,
    DocumentType,
}

/// Data of a DocumentType node.
#[derive(Clone, Debug)]
pub struct DocumentTypeData {
    pub name: String,
    pub public_id: String,
    pub system_id: String,
}

/// What a node is, with its data.
#[derive(Clone, Debug)]
pub enum NodeKind {
    Document,
    DocumentType(DocumentTypeData),
    Element(ElementData),
    /// A Text node and its data.
    Text(Vec<char>),
    /// A Comment node and its data.
    Comment(String),
}

/// Mathematical model of a node kind.
pub enum KindModel {
    Document,
    DocumentType { name: Seq<char>, public_id: Seq<char>, system_id: Seq<char> },
    Element(ElementModel),
    Text(Seq<char>),
    Comment(Seq<char>),
}

impl View for NodeKind {
    type V = KindModel;

    open spec fn view(&self) -> KindModel {
        match self {
            NodeKind::Document => KindModel::Document,
            NodeKind::DocumentType(d) => KindModel::DocumentType {
                name: d.name@,
                public_id: d.public_id@,
                system_id: d.system_id@,
            },
            NodeKind::Element(e) => KindModel::Element(e@),
            NodeKind::Text(t) => KindModel::Text(t@),
            NodeKind::Comment(c) => KindModel::Comment(c@),
        }
    }
}

/// A node of the document tree.
#[derive(Clone, Debug)]
pub struct Node {
    pub kind: NodeKind,
    /// Index of the parent node, if attached.
    pub parent: Option<usize>,
    /// Indices of the children, in tree order.
    pub children: Vec<usize>,
}

/// Mathematical model of a node.
pub struct NodeModel {
    pub kind: KindModel,
    pub parent: Option<usize>,
    pub children: Seq<usize>,
}

impl View for Node {
    type V = NodeModel;

    open spec fn view(&self) -> NodeModel {
        NodeModel { kind: self.kind@, parent: self.parent, children: self.children@ }
    }
}

pub open spec fn kind_node_type(k: KindModel) -> NodeType {
    match k {
        KindModel::Document => NodeType::Document,
        KindModel::DocumentType { .. } => NodeType::DocumentType,
        KindModel::Element(_) => NodeType::Element,
        KindModel::Text(_) => NodeType::Text,
        KindModel::Comment(_) => NodeType::Comment,
    }
}

/// `nodeName` of a node (DOM §4.4).
pub open spec fn kind_node_name(k: KindModel) -> Seq<char> {
    match k {
        KindModel::Document => "#document"@,
        KindModel::DocumentType { name, .. } => name,
        KindModel::Element(e) => element_node_name(e),
        KindModel::Text(_) => "#text"@,
        KindModel::Comment(_) => "#comment"@,
    }
}

// ───────────────────────── tree well-formedness ─────────────────────────

pub open spec fn parent_ok(nodes: Seq<NodeModel>, i: int) -> bool {
    match nodes[i].parent {
        Some(p) => p < i && nodes[p as int].children.contains(i as usize),
        None => true,
    }
}

pub open spec fn child_ok(nodes: Seq<NodeModel>, i: int, k: int) -> bool {
    let c = nodes[i].children[k];
    i < c < nodes.len() && nodes[c as int].parent == Some(i as usize)
}

/// Well-formedness of a node arena: node 0 is the Document and has no
/// parent; parent and child links agree; a parent has a smaller index than
/// its children; a node occurs at most once among its parent's children.
pub open spec fn tree_wf(nodes: Seq<NodeModel>) -> bool {
    &&& nodes.len() >= 1
    &&& nodes.len() <= usize::MAX
    &&& nodes[0].kind is Document
    &&& nodes[0].parent is None
    &&& forall|i: int| 0 <= i < nodes.len() ==> #[trigger] parent_ok(nodes, i)
    &&& forall|i: int, k: int|
        0 <= i < nodes.len() && 0 <= k < nodes[i].children.len() ==> #[trigger] child_ok(
            nodes,
            i,
            k,
        )
    &&& forall|i: int, k1: int, k2: int|
        0 <= i < nodes.len() && 0 <= k1 < nodes[i].children.len() && 0 <= k2
            < nodes[i].children.len() && #[trigger] nodes[i].children[k1]
            == #[trigger] nodes[i].children[k2] ==> k1 == k2
}

/// A new detached node of the given kind, added at the end of the arena.
pub open spec fn model_create(nodes: Seq<NodeModel>, kind: KindModel) -> Seq<NodeModel> {
    nodes.push(NodeModel { kind, parent: None, children: Seq::empty() })
}

/// `child` appended as the last child of `parent`.
pub open spec fn model_append(nodes: Seq<NodeModel>, parent: int, child: int) -> Seq<NodeModel> {
    let n1 = nodes.update(child, NodeModel { parent: Some(parent as usize), ..nodes[child] });
    n1.update(parent, NodeModel { children: n1[parent].children.push(child as usize), ..n1[parent] })
}

/// A new node of the given kind, appended as the last child of `parent`.
pub open spec fn model_create_append(nodes: Seq<NodeModel>, parent: int, kind: KindModel) -> Seq<
    NodeModel,
> {
    model_append(model_create(nodes, kind), parent, nodes.len() as int)
}

/// `c` appended to the data of Text node `id`.
pub open spec fn model_push_text(nodes: Seq<NodeModel>, id: int, c: char) -> Seq<NodeModel> {
    match nodes[id].kind {
        KindModel::Text(d) => nodes.update(
            id,
            NodeModel { kind: KindModel::Text(d.push(c)), ..nodes[id] },
        ),
        _ => nodes,
    }
}

pub proof fn lemma_create_append_wf(nodes: Seq<NodeModel>, parent: int, kind: KindModel)
    requires
        tree_wf(nodes),
        0 <= parent < nodes.len(),
        nodes.len() < usize::MAX,
        !(kind is Document),
    ensures
        tree_wf(model_create_append(nodes, parent, kind)),
        model_create_append(nodes, parent, kind).len() == nodes.len() + 1,
{
    let c = nodes.len() as int;
    let n0 = model_create(nodes, kind);
    let n1 = n0.update(c, NodeModel { parent: Some(parent as usize), ..n0[c] });
    let n2 = model_create_append(nodes, parent, kind);
    assert(n2 == n1.update(
        parent,
        NodeModel { children: n1[parent].children.push(c as usize), ..n1[parent] },
    ));
    assert forall|i: int| 0 <= i < n2.len() implies #[trigger] parent_ok(n2, i) by {
        if i < c {
            assert(parent_ok(nodes, i));
            match nodes[i].parent {
                Some(p) => {
                    if p == parent {
                        assert(n2[p as int].children == nodes[p as int].children.push(c as usize));
                        let k = choose|k: int|
                            0 <= k < nodes[p as int].children.len() && nodes[p as int].children[k]
                                == i as usize;
                        assert(n2[p as int].children[k] == i as usize);
                    } else {
                        assert(n2[p as int].children == nodes[p as int].children);
                    }
                },
                None => {},
            }
        } else {
            assert(n2[c].parent == Some(parent as usize));
            assert(n2[parent].children[n2[parent].children.len() - 1] == c as usize);
        }
    }
    assert forall|i: int, k: int| 0 <= i < n2.len() && 0 <= k < n2[i].children.len() implies #[trigger] child_ok(
        n2,
        i,
        k,
    ) by {
        if i == parent && k == nodes[parent].children.len() {
        } else if i < c {
            assert(child_ok(nodes, i, k));
        }
    }
    assert forall|i: int, k1: int, k2: int|
        0 <= i < n2.len() && 0 <= k1 < n2[i].children.len() && 0 <= k2 < n2[i].children.len()
            && #[trigger] n2[i].children[k1] == #[trigger] n2[i].children[k2] implies k1 == k2 by {
        if i == parent {
            let old_len = nodes[parent].children.len();
            if k1 < old_len && k2 < old_len {
                assert(nodes[i].children[k1] == nodes[i].children[k2]);
            } else if k1 < old_len {
                assert(child_ok(nodes, i, k1));
            } else if k2 < old_len {
                assert(child_ok(nodes, i, k2));
            }
        } else if i < c {
            assert(nodes[i].children[k1] == nodes[i].children[k2]);
        }
    }
}

pub proof fn lemma_push_text_wf(nodes: Seq<NodeModel>, id: int, c: char)
    requires
        tree_wf(nodes),
        0 <= id < nodes.len(),
        nodes[id].kind is Text,
    ensures
        tree_wf(model_push_text(nodes, id, c)),
        model_push_text(nodes, id, c).len() == nodes.len(),
{
    let n2 = model_push_text(nodes, id, c);
    assert forall|i: int| 0 <= i < n2.len() implies #[trigger] parent_ok(n2, i) by {
        assert(parent_ok(nodes, i));
    }
    assert forall|i: int, k: int| 0 <= i < n2.len() && 0 <= k < n2[i].children.len() implies #[trigger] child_ok(
        n2,
        i,
        k,
    ) by {
        assert(child_ok(nodes, i, k));
    }
    assert forall|i: int, k1: int, k2: int|
        0 <= i < n2.len() && 0 <= k1 < n2[i].children.len() && 0 <= k2 < n2[i].children.len()
            && #[trigger] n2[i].children[k1] == #[trigger] n2[i].children[k2] implies k1 == k2 by {
        assert(nodes[i].children[k1] == nodes[i].children[k2]);
    }
}

// ─────────────────────── adjacent text nodes ───────────────────────

/// `c` names a Text node.
pub open spec fn is_text_node(nodes: Seq<NodeModel>, c: usize) -> bool {
    (c as int) < nodes.len() && nodes[c as int].kind is Text
}

/// The `k`-th and `k+1`-th children of `i` are both Text nodes.
pub open spec fn adjacent_texts(nodes: Seq<NodeModel>, i: int, k: int) -> bool {
    is_text_node(nodes, nodes[i].children[k]) && is_text_node(nodes, nodes[i].children[k + 1])
}

/// No node has two Text nodes next to each other among its children.
pub open spec fn text_merged(nodes: Seq<NodeModel>) -> bool {
    forall|i: int, k: int|
        0 <= i < nodes.len() && 0 <= k && k + 1 < nodes[i].children.len() ==> !#[trigger] adjacent_texts(
            nodes,
            i,
            k,
        )
}

/// Appending a node keeps Text siblings apart, unless a Text node is put
/// right after another.
pub proof fn lemma_create_append_merged(nodes: Seq<NodeModel>, parent: int, kind: KindModel)
    requires
        tree_wf(nodes),
        text_merged(nodes),
        0 <= parent < nodes.len(),
        nodes.len() < usize::MAX,
        !(kind is Text) || nodes[parent].children.len() == 0 || !is_text_node(
            nodes,
            nodes[parent].children.last(),
        ),
    ensures
        text_merged(model_create_append(nodes, parent, kind)),
{
    lemma_create_append_frame(nodes, parent, kind);
    let n2 = model_create_append(nodes, parent, kind);
    let len = nodes.len() as int;
    assert forall|i: int, k: int|
        0 <= i < n2.len() && 0 <= k && k + 1 < n2[i].children.len() implies !#[trigger] adjacent_texts(
        n2,
        i,
        k,
    ) by {
        if i < len {
            let old_kids = nodes[i].children;
            if i == parent {
                assert(n2[i].children == old_kids.push(len as usize));
            } else {
                assert(n2[i].children == old_kids);
            }
            if k + 1 < old_kids.len() {
                assert(child_ok(nodes, i, k));
                assert(child_ok(nodes, i, k + 1));
                assert(!adjacent_texts(nodes, i, k));
            } else {
                assert(child_ok(nodes, i, k));
                assert(old_kids.last() == old_kids[k]);
            }
        }
    }
}

/// Appending a character to a Text node keeps Text siblings apart.
pub proof fn lemma_push_text_merged(nodes: Seq<NodeModel>, id: int, c: char)
    requires
        text_merged(nodes),
        0 <= id < nodes.len(),
    ensures
        text_merged(model_push_text(nodes, id, c)),
{
    let n2 = model_push_text(nodes, id, c);
    assert forall|i: int, k: int|
        0 <= i < n2.len() && 0 <= k && k + 1 < n2[i].children.len() implies !#[trigger] adjacent_texts(
        n2,
        i,
        k,
    ) by {
        assert(!adjacent_texts(nodes, i, k));
        assert(n2[i].children == nodes[i].children);
    }
}

// ─────────────────────── text content, descendants ───────────────────────

/// The data of a Text node, or the descendant text of any other node.
pub open spec fn node_text(nodes: Seq<NodeModel>, c: int) -> Seq<char>
    decreases nodes.len() - c, 2int, 0int,
{
    if 0 <= c < nodes.len() {
        match nodes[c].kind {
            KindModel::Text(d) => d,
            _ => descendant_text(nodes, c),
        }
    } else {
        Seq::empty()
    }
}

/// Concatenation, in tree order, of the data of the Text descendants of
/// `id`.
pub open spec fn descendant_text(nodes: Seq<NodeModel>, id: int) -> Seq<char>
    decreases nodes.len() - id, 1int, 0int,
{
    descendant_text_from(nodes, id, 0)
}

/// Descendant text of the children of `id` from the `k`-th on.
pub open spec fn descendant_text_from(nodes: Seq<NodeModel>, id: int, k: int) -> Seq<char>
    decreases nodes.len() - id, 0int, nodes[id].children.len() - k,
{
    if 0 <= id < nodes.len() && 0 <= k < nodes[id].children.len() {
        let c = nodes[id].children[k] as int;
        let head = if id < c < nodes.len() { node_text(nodes, c) } else { Seq::empty() };
        head + descendant_text_from(nodes, id, k + 1)
    } else {
        Seq::empty()
    }
}

/// `textContent` (DOM §4.4): the data of Text and Comment nodes, the
/// descendant text of elements, nothing for Document and DocumentType.
pub open spec fn text_content_of(nodes: Seq<NodeModel>, id: int) -> Option<Seq<char>> {
    match nodes[id].kind {
        KindModel::Text(d) => Some(d),
        KindModel::Comment(d) => Some(d),
        KindModel::Element(_) => Some(descendant_text(nodes, id)),
        _ => None,
    }
}

/// The descendants of `c` in tree order, preceded by `c` itself.
pub open spec fn subtree(nodes: Seq<NodeModel>, c: int) -> Seq<usize>
    decreases nodes.len() - c, 2int, 0int,
{
    if 0 <= c < nodes.len() {
        seq![c as usize] + descendants_of(nodes, c)
    } else {
        Seq::empty()
    }
}

/// The descendants of `id` in tree order (preorder).
pub open spec fn descendants_of(nodes: Seq<NodeModel>, id: int) -> Seq<usize>
    decreases nodes.len() - id, 1int, 0int,
{
    descendants_from(nodes, id, 0)
}

/// Descendants through the children of `id` from the `k`-th on.
pub open spec fn descendants_from(nodes: Seq<NodeModel>, id: int, k: int) -> Seq<usize>
    decreases nodes.len() - id, 0int, nodes[id].children.len() - k,
{
    if 0 <= id < nodes.len() && 0 <= k < nodes[id].children.len() {
        let c = nodes[id].children[k] as int;
        let head = if id < c < nodes.len() { subtree(nodes, c) } else { Seq::empty() };
        head + descendants_from(nodes, id, k + 1)
    } else {
        Seq::empty()
    }
}

/// `c` names an element node.
pub open spec fn is_element_node(nodes: Seq<NodeModel>, c: usize) -> bool {
    (c as int) < nodes.len() && nodes[c as int].kind is Element
}

/// The entries of `kids` that are element nodes, in order.
pub open spec fn elements_among(nodes: Seq<NodeModel>, kids: Seq<usize>) -> Seq<usize>
    decreases kids.len(),
{
    if kids.len() == 0 {
        Seq::empty()
    } else {
        let r = elements_among(nodes, kids.drop_last());
        if is_element_node(nodes, kids.last()) {
            r.push(kids.last())
        } else {
            r
        }
    }
}

/// The children of `id` that are elements, in tree order.
pub open spec fn element_children(nodes: Seq<NodeModel>, id: int) -> Seq<usize> {
    elements_among(nodes, nodes[id].children)
}

/// Filtering by element-ness depends only on the element-ness of the
/// entries.
pub proof fn lemma_elements_among_same(n1: Seq<NodeModel>, n2: Seq<NodeModel>, kids: Seq<usize>)
    requires
        forall|i: int|
            0 <= i < kids.len() ==> is_element_node(n1, #[trigger] kids[i]) == is_element_node(
                n2,
                kids[i],
            ),
    ensures
        elements_among(n1, kids) == elements_among(n2, kids),
    decreases kids.len(),
{
    if kids.len() > 0 {
        let d = kids.drop_last();
        assert forall|i: int| 0 <= i < d.len() implies is_element_node(n1, #[trigger] d[i])
            == is_element_node(n2, d[i]) by {
            assert(d[i] == kids[i]);
        }
        lemma_elements_among_same(n1, n2, d);
        assert(kids.last() == kids[kids.len() - 1]);
    }
}

/// Creating and appending a node keeps the kinds of the existing nodes and
/// the element children of every existing node but `parent`, which gains
/// the new node when it is an element.
pub proof fn lemma_create_append_frame(nodes: Seq<NodeModel>, parent: int, kind: KindModel)
    requires
        tree_wf(nodes),
        0 <= parent < nodes.len(),
        nodes.len() < usize::MAX,
    ensures
        ({
            let n2 = model_create_append(nodes, parent, kind);
            &&& n2.len() == nodes.len() + 1
            &&& n2[nodes.len() as int].kind == kind
            &&& n2[nodes.len() as int].children.len() == 0
            &&& forall|x: int| 0 <= x < nodes.len() ==> (#[trigger] n2[x]).kind == nodes[x].kind
            &&& forall|q: int|
                0 <= q < nodes.len() ==> #[trigger] element_children(n2, q) == if q == parent
                    && kind is Element {
                    element_children(nodes, q).push(nodes.len() as usize)
                } else {
                    element_children(nodes, q)
                }
        }),
{
    let n2 = model_create_append(nodes, parent, kind);
    let len = nodes.len() as int;
    assert(n2[len].kind == kind);
    assert forall|q: int| 0 <= q < nodes.len() implies #[trigger] element_children(n2, q) == if q
        == parent && kind is Element {
        element_children(nodes, q).push(nodes.len() as usize)
    } else {
        element_children(nodes, q)
    } by {
        let kids = nodes[q].children;
        assert forall|i: int| 0 <= i < kids.len() implies is_element_node(nodes, #[trigger] kids[i])
            == is_element_node(n2, kids[i]) by {
            assert(child_ok(nodes, q, i));
        }
        lemma_elements_among_same(nodes, n2, kids);
        if q == parent {
            let k2 = kids.push(len as usize);
            assert(n2[q].children == k2);
            assert(k2.drop_last() =~= kids);
        } else {
            assert(n2[q].children == kids);
        }
    }
}

/// Appending a character to a Text node changes no kind but that node's
/// (a Text node stays a Text node) and no list of children.
pub proof fn lemma_push_text_frame(nodes: Seq<NodeModel>, id: int, c: char)
    requires
        0 <= id < nodes.len(),
    ensures
        ({
            let n2 = model_push_text(nodes, id, c);
            &&& n2.len() == nodes.len()
            &&& forall|x: int|
                0 <= x < nodes.len() && !(nodes[x].kind is Text) ==> (#[trigger] n2[x]).kind
                    == nodes[x].kind
            &&& forall|q: int|
                0 <= q < nodes.len() ==> #[trigger] element_children(n2, q) == element_children(
                    nodes,
                    q,
                )
        }),
{
    let n2 = model_push_text(nodes, id, c);
    assert forall|q: int| 0 <= q < nodes.len() implies #[trigger] element_children(n2, q)
        == element_children(nodes, q) by {
        let kids = nodes[q].children;
        assert(n2[q].children == kids);
        assert forall|i: int| 0 <= i < kids.len() implies is_element_node(nodes, #[trigger] kids[i])
            == is_element_node(n2, kids[i]) by {
            if (kids[i] as int) < nodes.len() {
                assert(n2[kids[i] as int].kind is Element == nodes[kids[i] as int].kind is Element);
            }
        }
        lemma_elements_among_same(nodes, n2, kids);
    }
}

// ───────────────────────────── Document ─────────────────────────────

/// The arena of a new document: the Document node alone.
pub open spec fn empty_document() -> Seq<NodeModel> {
    seq![NodeModel { kind: KindModel::Document, parent: None, children: Seq::empty() }]
}

/// A document: the arena of its nodes. Node 0 is the Document node.
#[derive(Clone, Debug)]
pub struct Document {
    nodes: Vec<Node>,
}

impl View for Document {
    type V = Seq<NodeModel>;

    closed spec fn view(&self) -> Seq<NodeModel> {
        self.nodes@.map_values(|n: Node| n@)
    }
}

impl Document {
    /// Well-formedness of the tree.
    pub open spec fn wf(&self) -> bool {
        tree_wf(self@)
    }

    proof fn lemma_view(&self)
        ensures
            self@.len() == self.nodes@.len(),
            forall|i: int| 0 <= i < self.nodes@.len() ==> #[trigger] self@[i] == self.nodes@[i]@,
    {
    }

    /// A document with only the Document node.
    pub fn new() -> (d: Document)
        ensures
            d.wf(),
            d@ == empty_document(),
    {
        let mut nodes: Vec<Node> = Vec::new();
        nodes.push(Node { kind: NodeKind::Document, parent: None, children: Vec::new() });
        let d = Document { nodes };
        proof {
            d.lemma_view();
            assert(d@ =~= seq![NodeModel { kind: KindModel::Document, parent: None, children: Seq::empty() }]);
        }
        d
    }

    /// Number of nodes in the arena.
    pub fn len(&self) -> (n: usize)
        ensures
            n == self@.len(),
    {
        proof {
            self.lemma_view();
        }
        self.nodes.len()
    }

    /// The node with index `id`.
    pub fn node(&self, id: usize) -> (n: &Node)
        requires
            id < self@.len(),
        ensures
            n@ == self@[id as int],
    {
        proof {
            self.lemma_view();
        }
        &self.nodes[id]
    }

    /// The kind (and data) of node `id`.
    pub fn kind(&self, id: usize) -> (k: &NodeKind)
        requires
            id < self@.len(),
        ensures
            k@ == self@[id as int].kind,
    {
        proof {
            self.lemma_view();
        }
        &self.nodes[id].kind
    }

    /// The parent of node `id`.
    pub fn parent(&self, id: usize) -> (p: Option<usize>)
        requires
            id < self@.len(),
        ensures
            p == self@[id as int].parent,
    {
        proof {
            self.lemma_view();
        }
        self.nodes[id].parent
    }

    /// The children of node `id`, in tree order.
    pub fn children(&self, id: usize) -> (c: &Vec<usize>)
        requires
            id < self@.len(),
        ensures
            c@ == self@[id as int].children,
    {
        proof {
            self.lemma_view();
        }
        &self.nodes[id].children
    }

    /// Number of children of node `id`.
    pub fn child_count(&self, id: usize) -> (n: usize)
        requires
            id < self@.len(),
        ensures
            n == self@[id as int].children.len(),
    {
        proof {
            self.lemma_view();
        }
        self.nodes[id].children.len()
    }

    /// The first child of node `id`.
    pub fn first_child(&self, id: usize) -> (c: Option<usize>)
        requires
            id < self@.len(),
        ensures
            c == (if self@[id as int].children.len() > 0 {
                Some(self@[id as int].children[0])
            } else {
                None
            }),
    {
        proof {
            self.lemma_view();
        }
        if self.nodes[id].children.len() > 0 {
            Some(self.nodes[id].children[0])
        } else {
            None
        }
    }

    /// The last child of node `id`.
    pub fn last_child(&self, id: usize) -> (c: Option<usize>)
        requires
            id < self@.len(),
        ensures
            c == (if self@[id as int].children.len() > 0 {
                Some(self@[id as int].children.last())
            } else {
                None
            }),
    {
        proof {
            self.lemma_view();
        }
        let n = self.nodes[id].children.len();
        if n > 0 {
            Some(self.nodes[id].children[n - 1])
        } else {
            None
        }
    }

    /// The type of node `id`.
    pub fn node_type(&self, id: usize) -> (t: NodeType)
        requires
            id < self@.len(),
        ensures
            t == kind_node_type(self@[id as int].kind),
    {
        proof {
            self.lemma_view();
        }
        match &self.nodes[id].kind {
            NodeKind::Document => NodeType::Document,
            NodeKind::DocumentType(_) => NodeType::DocumentType,
            NodeKind::Element(_) => NodeType::Element,
            NodeKind::Text(_) => NodeType::Text,
            NodeKind::Comment(_) => NodeType::Comment,
        }
    }

    /// `nodeName` of node `id`.
    pub fn node_name(&self, id: usize) -> (s: String)
        requires
            id < self@.len(),
        ensures
            s@ == kind_node_name(self@[id as int].kind),
    {
        proof {
            self.lemma_view();
        }
        match &self.nodes[id].kind {
            NodeKind::Document => String::from_str("#document"),
            NodeKind::DocumentType(d) => d.name.clone(),
            NodeKind::Element(e) => e.node_name(),
            NodeKind::Text(_) => String::from_str("#text"),
            NodeKind::Comment(_) => String::from_str("#comment"),
        }
    }

    /// The parent of node `id` if it is an element.
    pub fn parent_element(&self, id: usize) -> (p: Option<usize>)
        requires
            self.wf(),
            id < self@.len(),
        ensures
            p == (match self@[id as int].parent {
                Some(q) => if self@[q as int].kind is Element {
                    Some(q)
                } else {
                    None
                },
                None => None,
            }),
    {
        proof {
            self.lemma_view();
            assert(parent_ok(self@, id as int));
        }
        match self.nodes[id].parent {
            Some(q) => match &self.nodes[q].kind {
                NodeKind::Element(_) => Some(q),
                _ => None,
            },
            None => None,
        }
    }

    /// `textContent` of node `id`.
    pub fn text_content(&self, id: usize) -> (t: Option<String>)
        requires
            self.wf(),
            id < self@.len(),
        ensures
            match text_content_of(self@, id as int) {
                Some(d) => t is Some && t.unwrap()@ == d,
                None => t is None,
            },
    {
        proof {
            self.lemma_view();
        }
        match &self.nodes[id].kind {
            NodeKind::Text(d) => Some(chars_to_string(d)),
            NodeKind::Comment(d) => Some(d.clone()),
            NodeKind::Element(_) => {
                let mut out: Vec<char> = Vec::new();
                self.collect_text(id, &mut out);
                Some(chars_to_string(&out))
            },
            _ => None,
        }
    }

    fn collect_text(&self, id: usize, out: &mut Vec<char>)
        requires
            self.wf(),
            id < self@.len(),
        ensures
            final(out)@ == old(out)@ + descendant_text(self@, id as int),
        decreases self@.len() - id, 1int, 0int,
    {
        self.collect_text_from(id, 0, out);
    }

    fn collect_text_from(&self, id: usize, k: usize, out: &mut Vec<char>)
        requires
            self.wf(),
            id < self@.len(),
            k <= self@[id as int].children.len(),
        ensures
            final(out)@ == old(out)@ + descendant_text_from(self@, id as int, k as int),
        decreases self@.len() - id, 0int, self@[id as int].children.len() - k,
    {
        proof {
            self.lemma_view();
        }
        if k >= self.nodes[id].children.len() {
            assert(descendant_text_from(self@, id as int, k as int) == Seq::<char>::empty());
            assert(out@ == old(out)@ + Seq::<char>::empty());
            return;
        }
        let c = self.nodes[id].children[k];
        proof {
            assert(child_ok(self@, id as int, k as int));
        }
        let ghost before = out@;
        self.collect_node_text(c, out);
        let ghost mid = out@;
        self.collect_text_from(id, k + 1, out);
        assert(out@ == before + node_text(self@, c as int) + descendant_text_from(
            self@,
            id as int,
            k + 1,
        ));
    }

    fn collect_node_text(&self, c: usize, out: &mut Vec<char>)
        requires
            self.wf(),
            c < self@.len(),
        ensures
            final(out)@ == old(out)@ + node_text(self@, c as int),
        decreases self@.len() - c, 2int, 0int,
    {
        proof {
            self.lemma_view();
        }
        match &self.nodes[c].kind {
            NodeKind::Text(d) => {
                crate::text::push_chars(out, d);
            },
            _ => {
                self.collect_text(c, out);
            },
        }
    }

    /// The descendants of node `root` in tree order.
    pub fn descendants(&self, root: usize) -> (d: Vec<usize>)
        requires
            self.wf(),
            root < self@.len(),
        ensures
            d@ == descendants_of(self@, root as int),
    {
        let mut out: Vec<usize> = Vec::new();
        self.collect_desc(root, &mut out);
        out
    }

    fn collect_desc(&self, id: usize, out: &mut Vec<usize>)
        requires
            self.wf(),
            id < self@.len(),
        ensures
            final(out)@ == old(out)@ + descendants_of(self@, id as int),
        decreases self@.len() - id, 1int, 0int,
    {
        self.collect_desc_from(id, 0, out);
    }

    fn collect_desc_from(&self, id: usize, k: usize, out: &mut Vec<usize>)
        requires
            self.wf(),
            id < self@.len(),
            k <= self@[id as int].children.len(),
        ensures
            final(out)@ == old(out)@ + descendants_from(self@, id as int, k as int),
        decreases self@.len() - id, 0int, self@[id as int].children.len() - k,
    {
        proof {
            self.lemma_view();
        }
        if k >= self.nodes[id].children.len() {
            assert(descendants_from(self@, id as int, k as int) == Seq::<usize>::empty());
            assert(out@ == old(out)@ + Seq::<usize>::empty());
            return;
        }
        let c = self.nodes[id].children[k];
        proof {
            assert(child_ok(self@, id as int, k as int));
        }
        let ghost before = out@;
        out.push(c);
        self.collect_desc(c, out);
        self.collect_desc_from(id, k + 1, out);
        assert(descendants_from(self@, id as int, k as int) == subtree(self@, c as int)
            + descendants_from(self@, id as int, k + 1));
        assert(subtree(self@, c as int) == seq![c] + descendants_of(self@, c as int));
        assert(out@ =~= old(out)@ + descendants_from(self@, id as int, k as int));
    }

    // ── mutation (used by tree construction) ──

    /// Adds a detached node and returns its index.
    pub fn create_node(&mut self, kind: NodeKind) -> (id: usize)
        requires
            old(self)@.len() < usize::MAX,
        ensures
            id == old(self)@.len(),
            final(self)@ == model_create(old(self)@, kind@),
    {
        proof {
            self.lemma_view();
        }
        let id = self.nodes.len();
        self.nodes.push(Node { kind, parent: None, children: Vec::new() });
        proof {
            self.lemma_view();
            assert(self@ =~= model_create(old(self)@, kind@));
        }
        id
    }

    /// Appends the detached node `child` as the last child of `parent`.
    pub fn append_child(&mut self, parent: usize, child: usize)
        requires
            parent < child < old(self)@.len(),
        ensures
            final(self)@ == model_append(old(self)@, parent as int, child as int),
    {
        proof {
            self.lemma_view();
        }
        self.nodes[child].parent = Some(parent);
        self.nodes[parent].children.push(child);
        proof {
            self.lemma_view();
            assert(self@ =~= model_append(old(self)@, parent as int, child as int));
        }
    }

    /// Appends `c` to the data of Text node `id`.
    pub fn push_text(&mut self, id: usize, c: char)
        requires
            id < old(self)@.len(),
            old(self)@[id as int].kind is Text,
        ensures
            final(self)@ == model_push_text(old(self)@, id as int, c),
    {
        proof {
            self.lemma_view();
        }
        match &mut self.nodes[id].kind {
            NodeKind::Text(d) => {
                d.push(c);
            },
            _ => {},
        }
        proof {
            self.lemma_view();
            assert(self@ =~= model_push_text(old(self)@, id as int, c));
        }
    }
}

} // verus!
