//! The tokenizer on its own.

use muskitty::tokenizer::{HtmlTokenizer, LexState, TagKind, Token};

fn s(v: &[char]) -> String {
    v.iter().collect()
}

/// A compact rendering of the tokens of `input` in the data state.
fn tokens(input: &str) -> Vec<String> {
    let mut t = HtmlTokenizer::new(input);
    let mut out = Vec::new();
    while let Some(tok) = t.next_token() {
        out.push(match tok {
            Token::Character(c) => format!("c:{c}"),
            Token::Comment(d) => format!("comment:{}", s(&d)),
            Token::Doctype(d) => format!(
                "doctype:{}",
                d.name.map(|n| s(&n)).unwrap_or_default()
            ),
            Token::Tag(tag) => {
                let attrs: Vec<String> = tag
                    .attrs
                    .iter()
                    .map(|a| format!("{}={}", s(&a.name), s(&a.value)))
                    .collect();
                format!(
                    "{}{}[{}]{}",
                    if tag.kind == TagKind::Start { "<" } else { "</" },
                    s(&tag.name),
                    attrs.join(","),
                    if tag.self_closing { "/" } else { "" }
                )
            }
            Token::EOF => "eof".to_string(),
        });
    }
    out
}

#[test]
fn tags_attributes_and_text() {
    assert_eq!(
        tokens("<P Class=\"x\" id='y' hidden>a</p>"),
        vec!["<p[class=x,id=y,hidden=]", "c:a", "</p[]", "eof"]
    );
}

#[test]
fn duplicate_attributes_keep_the_first() {
    assert_eq!(tokens("<a x=1 X=2>"), vec!["<a[x=1]", "eof"]);
}

#[test]
fn self_closing_and_comment_and_doctype() {
    assert_eq!(
        tokens("<!DOCTYPE HTML><br/><!--note-->"),
        vec!["doctype:html", "<br[]/", "comment:note", "eof"]
    );
}

#[test]
fn character_references_in_data() {
    assert_eq!(
        tokens("&lt;&#65;&#x42;&amp;&zz;"),
        vec!["c:<", "c:A", "c:B", "c:&", "c:&", "c:z", "c:z", "c:;", "eof"]
    );
}

#[test]
fn empty_end_tag_is_dropped_and_bogus_comment() {
    assert_eq!(tokens("a</>b<?x>"), vec!["c:a", "c:b", "comment:?x", "eof"]);
}

#[test]
fn rawtext_ends_only_at_the_appropriate_end_tag() {
    let mut t = HtmlTokenizer::new("<style>a</b></style>c");
    let first = t.next_token().unwrap();
    assert!(matches!(first, Token::Tag(_)));
    t.set_state(LexState::RawText);
    let mut rest = Vec::new();
    while let Some(tok) = t.next_token() {
        rest.push(match tok {
            Token::Character(c) => c.to_string(),
            Token::Tag(tag) => format!("tag:{}", s(&tag.name)),
            Token::EOF => "eof".to_string(),
            _ => "other".to_string(),
        });
    }
    assert_eq!(rest, vec!["a", "<", "/", "b", ">", "tag:style", "c", "eof"]);
}

#[test]
fn nothing_after_eof() {
    let mut t = HtmlTokenizer::new("");
    assert!(matches!(t.next_token(), Some(Token::EOF)));
    assert!(t.next_token().is_none());
}
