//! The tree constructor driven token by token.

use muskitty::dom::Document;
use muskitty::error::ParseError;
use muskitty::parser::insertion_mode::InsertionMode;
use muskitty::parser::HtmlTreeConstructor;
use muskitty::tokenizer::{DoctypeToken, LexState, TagKind, TagToken, Token};

fn chars(s: &str) -> Vec<char> {
    s.chars().collect()
}

fn start(name: &str) -> Token {
    Token::Tag(TagToken {
        kind: TagKind::Start,
        name: chars(name),
        attrs: Vec::new(),
        self_closing: false,
    })
}

#[test]
fn invalid_doctype_is_a_parse_error() {
    let mut p = HtmlTreeConstructor::new(Document::new());
    p.run(&Token::Doctype(DoctypeToken {
        name: Some(chars("foo")),
        public_id: None,
        system_id: None,
    }));
    assert_eq!(p.errors, vec![ParseError::InvalidDoctype]);
    assert_eq!(p.insertion_mode, InsertionMode::Initial);
    assert_eq!(p.document.child_count(0), 1);
}

#[test]
fn valid_doctypes_are_not_errors() {
    let mut p = HtmlTreeConstructor::new(Document::new());
    p.run(&Token::Doctype(DoctypeToken {
        name: Some(chars("html")),
        public_id: None,
        system_id: Some(chars("about:legacy-compat")),
    }));
    assert!(p.errors.is_empty());
}

#[test]
fn doctype_after_html_is_a_generic_error() {
    let mut p = HtmlTreeConstructor::new(Document::new());
    p.run(&start("html"));
    assert_eq!(p.insertion_mode, InsertionMode::BeforeHead);
    p.run(&Token::Doctype(DoctypeToken {
        name: Some(chars("html")),
        public_id: None,
        system_id: None,
    }));
    assert_eq!(
        p.errors,
        vec![ParseError::Generic("unexpected DOCTYPE in before head")]
    );
}

#[test]
fn title_requests_rcdata_and_text_mode() {
    let mut p = HtmlTreeConstructor::new(Document::new());
    p.run(&start("title"));
    assert_eq!(p.insertion_mode, InsertionMode::Text);
    assert_eq!(p.original_insertion_mode, Some(InsertionMode::InHead));
    assert_eq!(p.take_tokenizer_state(), Some(LexState::RcData));
    assert_eq!(p.take_tokenizer_state(), None);
    assert_eq!(p.open_elements.len(), 3);
    let title = p.current_node();
    assert_eq!(p.document.node_name(title), "TITLE");
}

#[test]
fn eof_in_text_mode_closes_the_element() {
    let mut p = HtmlTreeConstructor::new(Document::new());
    p.run(&start("style"));
    p.run(&Token::Character('x'));
    p.run(&Token::EOF);
    assert_eq!(p.insertion_mode, InsertionMode::InBody);
    assert!(p
        .errors
        .contains(&ParseError::Generic("unexpected end of file in text")));
    assert_eq!(p.document.node_name(p.current_node()), "BODY");
}
