//! Keyboard shortcuts, the address bar, key routing, and how shortcuts and
//! chrome effects change the tabs.

use muskitty::chrome::{
    match_shortcut, route_key, AddressBar, AddressKey, ChromeEffect, Key, KeyRoute, Modifiers,
    ShortcutAction,
};
use muskitty::navigation::{classify_url, error_page, escape_html, NavigationKind};
use muskitty::webview::{apply_effect, apply_shortcut, EffectAction, WebViewCollection};

const CTRL: Modifiers = Modifiers { control: true, shift: false, alt: false, meta: false };
const NONE: Modifiers = Modifiers { control: false, shift: false, alt: false, meta: false };

fn three_tabs() -> WebViewCollection {
    let mut c = WebViewCollection::new("<p>A</p>", "");
    c.new_tab("<p>B</p>", "");
    c.new_tab("<p>C</p>", "");
    c
}

fn focused_bar(text: &str) -> AddressBar {
    AddressBar { focused: true, text: text.to_string() }
}

#[test]
fn shortcuts_map_ctrl_keys() {
    assert_eq!(match_shortcut(CTRL, Key::Character('t')), Some(ShortcutAction::NewTab));
    assert_eq!(match_shortcut(CTRL, Key::Character('W')), Some(ShortcutAction::CloseTab));
    assert_eq!(match_shortcut(CTRL, Key::Character('r')), Some(ShortcutAction::Reload));
    assert_eq!(match_shortcut(CTRL, Key::Character('l')), Some(ShortcutAction::FocusAddress));
    assert_eq!(match_shortcut(CTRL, Key::Character('1')), Some(ShortcutAction::TabSelect(0)));
    assert_eq!(match_shortcut(CTRL, Key::Character('9')), Some(ShortcutAction::TabSelect(8)));
    assert_eq!(match_shortcut(CTRL, Key::PageDown), Some(ShortcutAction::NextTab));
    assert_eq!(match_shortcut(CTRL, Key::PageUp), Some(ShortcutAction::PrevTab));
    assert_eq!(match_shortcut(CTRL, Key::Character('0')), None);
    assert_eq!(match_shortcut(CTRL, Key::Character('x')), None);
}

#[test]
fn escape_without_modifiers_closes_and_plain_keys_match_nothing() {
    assert_eq!(match_shortcut(NONE, Key::Escape), Some(ShortcutAction::Close));
    assert_eq!(match_shortcut(NONE, Key::Character('t')), None);
    assert_eq!(match_shortcut(NONE, Key::PageDown), None);
    let alt = Modifiers { alt: true, ..CTRL };
    assert_eq!(match_shortcut(alt, Key::Character('t')), None);
}

#[test]
fn escape_in_focused_address_bar_only_drops_focus() {
    let r = route_key(true, false, false, false, Key::Escape, Some(ShortcutAction::Close));
    assert_eq!(r, KeyRoute::AddressEscape);
    let r = route_key(false, false, false, false, Key::Escape, Some(ShortcutAction::Close));
    assert_eq!(r, KeyRoute::Shortcut(ShortcutAction::Close));
}

#[test]
fn shortcut_wins_over_address_typing() {
    let r = route_key(true, true, false, false, Key::Character('t'), Some(ShortcutAction::NewTab));
    assert_eq!(r, KeyRoute::Shortcut(ShortcutAction::NewTab));
}

#[test]
fn plain_keys_reach_the_focused_address_bar() {
    assert_eq!(
        route_key(true, false, false, false, Key::Character('a'), None),
        KeyRoute::AddressKey(AddressKey::Char('a'))
    );
    assert_eq!(
        route_key(true, false, false, false, Key::Backspace, None),
        KeyRoute::AddressKey(AddressKey::Backspace)
    );
    assert_eq!(
        route_key(true, false, false, false, Key::Enter, None),
        KeyRoute::AddressKey(AddressKey::Enter)
    );
    assert_eq!(route_key(true, false, false, false, Key::PageUp, None), KeyRoute::Ignored);
    assert_eq!(route_key(true, true, false, false, Key::Character('x'), None), KeyRoute::Ignored);
    assert_eq!(route_key(true, false, false, true, Key::Character('x'), None), KeyRoute::Ignored);
    assert_eq!(route_key(false, false, false, false, Key::Character('a'), None), KeyRoute::Ignored);
}

#[test]
fn address_bar_typing_backspace_and_enter() {
    let mut bar = focused_bar("ab");
    assert_eq!(bar.apply_key(AddressKey::Char('c')), ChromeEffect::Repaint);
    assert_eq!(bar.text, "abc");
    assert_eq!(bar.apply_key(AddressKey::Backspace), ChromeEffect::Repaint);
    assert_eq!(bar.text, "ab");
    assert_eq!(bar.apply_key(AddressKey::Enter), ChromeEffect::UrlSubmitted("ab".to_string()));
    assert!(!bar.focused);
    assert_eq!(bar.text, "ab");
}

#[test]
fn address_bar_escape_and_unfocused_keys() {
    let mut bar = focused_bar("x");
    assert_eq!(bar.apply_key(AddressKey::Escape), ChromeEffect::Repaint);
    assert!(!bar.focused);
    assert_eq!(bar.apply_key(AddressKey::Char('y')), ChromeEffect::Repaint);
    assert_eq!(bar.text, "x");
    let mut empty = AddressBar::new();
    empty.focused = true;
    assert_eq!(empty.apply_key(AddressKey::Backspace), ChromeEffect::Repaint);
    assert_eq!(empty.text, "");
}

#[test]
fn shortcut_new_tab_opens_numbered_page() {
    let mut c = WebViewCollection::new("<p>A</p>", "");
    let mut bar = AddressBar::new();
    assert!(!apply_shortcut(&mut c, &mut bar, ShortcutAction::NewTab));
    assert_eq!(c.len(), 2);
    assert_eq!(c.active_index(), 1);
    assert_eq!(c.active().title, "Tab 2");
    assert!(c.active().html.contains("Tab 2"));
    assert!(c.active().needs_repaint());
}

#[test]
fn shortcut_close_exits_and_close_tab_marks() {
    let mut c = three_tabs();
    let mut bar = AddressBar::new();
    assert!(apply_shortcut(&mut c, &mut bar, ShortcutAction::Close));
    assert_eq!(c.len(), 3);
    assert!(!apply_shortcut(&mut c, &mut bar, ShortcutAction::CloseTab));
    assert!(c.active().close_scheduled());
    assert_eq!(c.flush_close(), 1);
    assert_eq!(c.len(), 2);
}

#[test]
fn shortcut_tab_selection_wraps_and_marks() {
    let mut c = three_tabs();
    let mut bar = AddressBar::new();
    apply_shortcut(&mut c, &mut bar, ShortcutAction::NextTab);
    assert_eq!(c.active_index(), 0);
    apply_shortcut(&mut c, &mut bar, ShortcutAction::PrevTab);
    assert_eq!(c.active_index(), 2);
    apply_shortcut(&mut c, &mut bar, ShortcutAction::TabSelect(1));
    assert_eq!(c.active_index(), 1);
    assert!(c.active().needs_repaint());
    apply_shortcut(&mut c, &mut bar, ShortcutAction::TabSelect(8));
    assert_eq!(c.active_index(), 1);
}

#[test]
fn shortcut_focus_address_focuses_bar() {
    let mut c = three_tabs();
    let mut bar = AddressBar::new();
    assert!(!apply_shortcut(&mut c, &mut bar, ShortcutAction::FocusAddress));
    assert!(bar.focused);
    assert_eq!(c.len(), 3);
}

#[test]
fn effect_switch_and_close_tab() {
    let mut c = three_tabs();
    assert_eq!(apply_effect(&mut c, ChromeEffect::SwitchTab(0)), EffectAction::Redraw);
    assert_eq!(c.active_index(), 0);
    assert_eq!(apply_effect(&mut c, ChromeEffect::CloseTab(1)), EffectAction::Redraw);
    assert_eq!(c.active_index(), 1);
    assert!(c.active().close_scheduled());
    assert_eq!(c.flush_close(), 1);
    assert_eq!(c.titles().len(), 2);
}

#[test]
fn effect_new_tab_and_url_submission() {
    let mut c = three_tabs();
    assert_eq!(apply_effect(&mut c, ChromeEffect::NewTab), EffectAction::Redraw);
    assert_eq!(c.active().title, "Tab 4");
    assert_eq!(
        apply_effect(&mut c, ChromeEffect::UrlSubmitted("example.com".to_string())),
        EffectAction::Navigate("example.com".to_string())
    );
    assert_eq!(
        apply_effect(&mut c, ChromeEffect::UrlSubmitted(String::new())),
        EffectAction::Nothing
    );
    assert_eq!(apply_effect(&mut c, ChromeEffect::Repaint), EffectAction::Redraw);
}

#[test]
fn file_url_with_non_ascii_second_char_keeps_slash() {
    assert_eq!(classify_url("file:///é:/x"), NavigationKind::File("/é:/x".to_string()));
    assert_eq!(classify_url("file:///D:/x"), NavigationKind::File("D:/x".to_string()));
}

#[test]
fn listed_schemes_are_unsupported_in_any_case() {
    assert_eq!(
        classify_url("  JavaScript:alert(1) "),
        NavigationKind::Unsupported("JavaScript:alert(1)".to_string())
    );
    assert_eq!(classify_url("ws:x"), NavigationKind::Unsupported("ws:x".to_string()));
}

#[test]
fn escaping_reads_back() {
    let e = escape_html("err & <msg>");
    assert_eq!(e, "err &amp; &lt;msg&gt;");
    let back = e.replace("&gt;", ">").replace("&lt;", "<").replace("&amp;", "&");
    assert_eq!(back, "err & <msg>");
}

#[test]
fn error_pages_hold_the_same_markup() {
    let a = error_page("http://a/<b>", "x > y");
    let b = error_page("u", "m");
    let count = |s: &str, c: char| s.chars().filter(|&d| d == c).count();
    assert_eq!(count(&a, '<'), count(&b, '<'));
    assert_eq!(count(&a, '>'), count(&b, '>'));
}
