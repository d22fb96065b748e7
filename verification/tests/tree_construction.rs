//! Tree construction: the DOM that `parse` builds for inputs that go through
//! the initial, before html, before head, in head, after head and Text
//! insertion modes.

use muskitty::dom::{Document, NodeKind, NodeType};
use muskitty::parse;

/// The first descendant element of `root` with the given node name
/// (upper case in the HTML namespace).
fn find_element_by_name(doc: &Document, root: usize, name: &str) -> Option<usize> {
    for id in doc.descendants(root) {
        if doc.node_type(id) == NodeType::Element && doc.node_name(id) == name {
            return Some(id);
        }
    }
    None
}

/// The node names of the children of a node.
fn child_names(doc: &Document, node: usize) -> Vec<String> {
    doc.children(node).iter().map(|&c| doc.node_name(c)).collect()
}

#[test]
fn doctype_html_creates_document_type_and_html() {
    let doc = parse("<!DOCTYPE html>");
    let names = child_names(&doc, 0);
    assert_eq!(names, vec!["html", "HTML"]);
    let dt = doc.first_child(0).unwrap();
    assert_eq!(doc.node_type(dt), NodeType::DocumentType);
    assert_eq!(doc.node_name(dt), "html");
}

#[test]
fn empty_input_auto_creates_html_head_body() {
    let doc = parse("");
    let html = find_element_by_name(&doc, 0, "HTML").expect("missing <HTML>");
    let html_children = child_names(&doc, html);
    assert!(
        html_children.contains(&"HEAD".to_string()),
        "expected <HEAD> under <HTML>, got {:?}",
        html_children
    );
    assert!(
        html_children.contains(&"BODY".to_string()),
        "expected <BODY> under <HTML>, got {:?}",
        html_children
    );
}

#[test]
fn comment_before_doctype_goes_to_document() {
    let doc = parse("<!-- hi --><!DOCTYPE html>");
    let first = doc.first_child(0).unwrap();
    assert_eq!(doc.node_type(first), NodeType::Comment);
}

#[test]
fn meta_element_is_created_and_not_open() {
    let doc = parse("<!DOCTYPE html><meta charset=utf-8>");
    let meta = find_element_by_name(&doc, 0, "META").expect("missing <META>");
    assert_eq!(doc.node_name(meta), "META");
    let parent = doc.parent_element(meta).unwrap();
    assert_eq!(doc.node_name(parent), "HEAD");
}

#[test]
fn link_element_is_created_in_head() {
    let doc = parse("<!DOCTYPE html><link rel=stylesheet href=x.css>");
    let link = find_element_by_name(&doc, 0, "LINK").expect("missing <LINK>");
    let parent = doc.parent_element(link).unwrap();
    assert_eq!(doc.node_name(parent), "HEAD");
}

#[test]
fn base_element_is_created_in_head() {
    let doc = parse("<!DOCTYPE html><base href=https://example.com/>");
    let base = find_element_by_name(&doc, 0, "BASE").expect("missing <BASE>");
    let parent = doc.parent_element(base).unwrap();
    assert_eq!(doc.node_name(parent), "HEAD");
}

#[test]
fn title_element_contains_text_content() {
    let doc = parse("<!DOCTYPE html><title>Hello</title>");
    let title = find_element_by_name(&doc, 0, "TITLE").expect("missing <TITLE>");
    assert_eq!(doc.child_count(title), 1);
    let text = doc.first_child(title).unwrap();
    assert_eq!(doc.node_type(text), NodeType::Text);
    assert_eq!(doc.text_content(text).unwrap(), "Hello");
}

#[test]
fn title_with_entities_decodes_them() {
    let doc = parse("<!DOCTYPE html><title>A&amp;B</title>");
    let title = find_element_by_name(&doc, 0, "TITLE").expect("missing <TITLE>");
    let text = doc.first_child(title).unwrap();
    assert_eq!(doc.text_content(text).unwrap(), "A&B");
}

#[test]
fn title_end_tag_restores_previous_mode() {
    let doc = parse("<!DOCTYPE html><title>X</title>");
    let _body = find_element_by_name(&doc, 0, "BODY").expect("missing <BODY>");
}

#[test]
fn style_element_preserves_raw_text() {
    let doc = parse("<!DOCTYPE html><style>.a > b { color: red; }</style>");
    let style = find_element_by_name(&doc, 0, "STYLE").expect("missing <STYLE>");
    let text = doc.first_child(style).unwrap();
    assert_eq!(doc.node_type(text), NodeType::Text);
    assert_eq!(doc.text_content(text).unwrap(), ".a > b { color: red; }");
}

#[test]
fn script_element_preserves_raw_text() {
    let doc = parse("<!DOCTYPE html><script>if (a < b) { alert('hi'); }</script>");
    let script = find_element_by_name(&doc, 0, "SCRIPT").expect("missing <SCRIPT>");
    let text = doc.first_child(script).unwrap();
    assert_eq!(doc.text_content(text).unwrap(), "if (a < b) { alert('hi'); }");
}

#[test]
fn explicit_head_end_tag_switches_to_after_head() {
    let doc = parse("<!DOCTYPE html><head></head><body></body>");
    let head = find_element_by_name(&doc, 0, "HEAD").expect("missing <HEAD>");
    let body = find_element_by_name(&doc, 0, "BODY").expect("missing <BODY>");
    let html = find_element_by_name(&doc, 0, "HTML").unwrap();
    let html_children = child_names(&doc, html);
    assert!(html_children.contains(&"HEAD".to_string()));
    assert!(html_children.contains(&"BODY".to_string()));
    assert_eq!(doc.node_name(doc.parent_element(head).unwrap()), "HTML");
    assert_eq!(doc.node_name(doc.parent_element(body).unwrap()), "HTML");
}

#[test]
fn body_start_tag_creates_body_and_switches_to_in_body() {
    let doc = parse("<!DOCTYPE html><head></head><body>hi</body>");
    let body = find_element_by_name(&doc, 0, "BODY").expect("missing <BODY>");
    assert_eq!(doc.child_count(body), 1);
    let text = doc.first_child(body).unwrap();
    assert_eq!(doc.text_content(text).unwrap(), "hi");
}

#[test]
fn content_without_body_auto_creates_body() {
    let doc = parse("<!DOCTYPE html><head></head>hello");
    let body = find_element_by_name(&doc, 0, "BODY").expect("missing <BODY>");
    assert_eq!(doc.text_content(body).unwrap(), "hello");
}

#[test]
fn meta_after_head_is_processed_in_head_context() {
    let doc = parse("<!DOCTYPE html><head></head><meta charset=utf-8>");
    let meta = find_element_by_name(&doc, 0, "META").expect("missing <META>");
    let parent = doc.parent_element(meta).unwrap();
    assert_eq!(doc.node_name(parent), "HEAD");
}

#[test]
fn full_document_structure() {
    let doc = parse(
        "<!DOCTYPE html><html><head><title>T</title></head><body><p>hi</p></body></html>",
    );
    assert_eq!(doc.child_count(0), 2);
    let html = find_element_by_name(&doc, 0, "HTML").unwrap();
    let html_children = child_names(&doc, html);
    assert_eq!(html_children, vec!["HEAD", "BODY"]);
    let head = find_element_by_name(&doc, 0, "HEAD").unwrap();
    let title = doc
        .children(head)
        .iter()
        .copied()
        .find(|&c| doc.node_name(c) == "TITLE")
        .expect("missing <TITLE> under <HEAD>");
    assert_eq!(doc.text_content(title).unwrap(), "T");
}

#[test]
fn attributes_are_preserved_on_html_element() {
    let doc = parse("<!DOCTYPE html><html lang=en><head></head></html>");
    let html = find_element_by_name(&doc, 0, "HTML").unwrap();
    if let NodeKind::Element(ref e) = doc.kind(html) {
        let lang = e.get_attribute("lang").expect("missing lang attribute");
        assert_eq!(lang, "en");
    } else {
        panic!("expected Element node");
    }
}

// ── the shape of every parse ───────────────────────────────────

/// The Document has one element child, `html`, whose first element
/// children are `head` and then `body` or `frameset`.
fn assert_document_shape(doc: &Document, second: &str) {
    let elements: Vec<usize> = doc
        .children(0)
        .iter()
        .copied()
        .filter(|&c| doc.node_type(c) == NodeType::Element)
        .collect();
    assert_eq!(elements.len(), 1);
    assert_eq!(doc.node_name(elements[0]), "HTML");
    let inner: Vec<String> = doc
        .children(elements[0])
        .iter()
        .copied()
        .filter(|&c| doc.node_type(c) == NodeType::Element)
        .map(|c| doc.node_name(c))
        .collect();
    assert!(inner.len() >= 2, "html element children: {:?}", inner);
    assert_eq!(inner[0], "HEAD");
    assert_eq!(inner[1], second);
}

#[test]
fn shape_holds_for_stray_end_tags_and_text() {
    let doc = parse("</p></div>text</html></body><p>x</p></html>");
    assert_document_shape(&doc, "BODY");
}

#[test]
fn shape_holds_for_frameset_documents() {
    let doc = parse("<html><head></head><frameset><frame></frameset><noframes>n</noframes>");
    assert_document_shape(&doc, "FRAMESET");
}

#[test]
fn shape_holds_for_unterminated_title() {
    let doc = parse("<title>never closed");
    assert_document_shape(&doc, "BODY");
    let title = find_element_by_name(&doc, 0, "TITLE").unwrap();
    assert_eq!(doc.text_content(title).unwrap(), "never closed");
}

#[test]
fn second_doctype_is_kept_and_html_tags_ignored() {
    let doc = parse("<!DOCTYPE html><!DOCTYPE html><html><html><body><body>");
    assert_eq!(child_names(&doc, 0), vec!["html", "html", "HTML"]);
    assert_document_shape(&doc, "BODY");
}

#[test]
fn tags_in_body_are_ignored() {
    let doc = parse("<div><span>a</span>b</div>c");
    let body = find_element_by_name(&doc, 0, "BODY").unwrap();
    assert_eq!(child_names(&doc, body), vec!["#text"]);
    assert!(find_element_by_name(&doc, 0, "DIV").is_none());
    assert_eq!(doc.text_content(body).unwrap(), "abc");
}

#[test]
fn void_head_elements_are_not_open() {
    let doc = parse("<head><meta a=1><link rel=x><base href=y><title>t</title>");
    let head = find_element_by_name(&doc, 0, "HEAD").unwrap();
    assert_eq!(child_names(&doc, head), vec!["META", "LINK", "BASE", "TITLE"]);
    let meta = find_element_by_name(&doc, 0, "META").unwrap();
    assert_eq!(doc.child_count(meta), 0);
}

#[test]
fn whitespace_before_body_is_dropped() {
    let doc = parse("<!DOCTYPE html>  <html>  <head> <title>t</title> </head> ");
    let html = find_element_by_name(&doc, 0, "HTML").unwrap();
    let head = find_element_by_name(&doc, 0, "HEAD").unwrap();
    assert_eq!(child_names(&doc, head), vec!["TITLE"]);
    assert_eq!(child_names(&doc, html), vec!["HEAD", "BODY"]);
}

#[test]
fn upper_case_tags_and_attributes_are_lowered() {
    let doc = parse("<META NAME=Viewport Content='a b'>");
    let meta = find_element_by_name(&doc, 0, "META").unwrap();
    if let NodeKind::Element(ref e) = doc.kind(meta) {
        assert_eq!(e.local_name, "meta");
        assert_eq!(e.get_attribute("name"), Some("Viewport"));
        assert_eq!(e.get_attribute("NAME"), Some("Viewport"));
        assert_eq!(e.get_attribute("content"), Some("a b"));
    } else {
        panic!("expected Element node");
    }
}

#[test]
fn stray_end_tags_before_head_create_head_and_body() {
    let doc = parse("</p>x");
    let html = find_element_by_name(&doc, 0, "HTML").unwrap();
    assert_eq!(child_names(&doc, html), vec!["HEAD", "BODY"]);
    let head = find_element_by_name(&doc, 0, "HEAD").unwrap();
    assert_eq!(doc.child_count(head), 0);
    let body = find_element_by_name(&doc, 0, "BODY").unwrap();
    assert_eq!(doc.text_content(body).unwrap(), "x");
}

#[test]
fn stray_end_tag_in_head_ends_the_head() {
    let doc = parse("<head></p><title>t</title>");
    assert!(find_element_by_name(&doc, 0, "TITLE").is_none());
    let body = find_element_by_name(&doc, 0, "BODY").unwrap();
    assert_eq!(doc.text_content(body).unwrap(), "t");
}

#[test]
fn other_start_tags_in_head_are_ignored() {
    let doc = parse("<head><div>x");
    assert!(find_element_by_name(&doc, 0, "DIV").is_none());
    let head = find_element_by_name(&doc, 0, "HEAD").unwrap();
    assert_eq!(doc.child_count(head), 0);
    let body = find_element_by_name(&doc, 0, "BODY").unwrap();
    assert_eq!(doc.text_content(body).unwrap(), "x");
}

#[test]
fn only_meta_is_taken_into_head_after_it() {
    let doc = parse("<head></head><meta charset=utf-8><link rel=x>");
    let head = find_element_by_name(&doc, 0, "HEAD").unwrap();
    assert_eq!(child_names(&doc, head), vec!["META"]);
    assert!(find_element_by_name(&doc, 0, "LINK").is_none());
    assert!(find_element_by_name(&doc, 0, "BODY").is_some());
}

#[test]
fn comments_in_every_mode_are_kept() {
    let doc = parse("<!--a--><html><!--b--><head><!--c--></head><!--d--><body><!--e-->");
    let first = doc.first_child(0).unwrap();
    assert_eq!(doc.node_type(first), NodeType::Comment);
    assert_eq!(doc.text_content(first).unwrap(), "a");
    let html = find_element_by_name(&doc, 0, "HTML").unwrap();
    assert_eq!(child_names(&doc, html), vec!["#comment", "HEAD", "#comment", "BODY"]);
    let body = find_element_by_name(&doc, 0, "BODY").unwrap();
    assert_eq!(doc.text_content(body).unwrap(), "");
}

#[test]
fn text_siblings_are_merged() {
    let doc = parse("<body>a&amp;b<!--c-->d<b>e</b>f");
    let body = find_element_by_name(&doc, 0, "BODY").unwrap();
    assert_eq!(child_names(&doc, body), vec!["#text", "#comment", "#text"]);
    let first = doc.first_child(body).unwrap();
    assert_eq!(doc.text_content(first).unwrap(), "a&b");
    let last = doc.children(body)[2];
    assert_eq!(doc.text_content(last).unwrap(), "def");
}
