//! Browser chrome input: keys, the shell shortcuts, the address bar, and
//! the effects that chrome input asks for.
//!
//! Shortcuts: Ctrl+T new tab, Ctrl+W close tab, Ctrl+1..9 select a tab,
//! Ctrl+PageDown / Ctrl+PageUp next / previous tab, Ctrl+R reload, Ctrl+L
//! focus the address bar, Esc close the window. While the address bar has
//! focus, Esc only drops the focus, and plain keys edit the address.
use vstd::prelude::*;

verus! {

/// A key, as the shell sees it.
#[derive(Clone, Copy, Debug, PartialEq, Eq, Structural)]
pub enum Key {
    /// A key that types a character.
    Character(char),
    Escape,
    PageUp,
    PageDown,
    Backspace,
    Enter,
    /// Any other key.
    Other,
}

/// The modifier keys held.
#[derive(Clone, Copy, Debug, PartialEq, Eq, Structural, Default)]
pub struct Modifiers {
    pub control: bool,
    pub shift: bool,
    pub alt: bool,
    pub meta: bool,
}

/// What a shell shortcut does.
#[derive(Clone, Copy, Debug, PartialEq, Eq, Structural)]
pub enum ShortcutAction {
    /// Close the window.
    Close,
    /// Close the active tab.
    CloseTab,
    /// Select the next tab.
    NextTab,
    /// Select the previous tab.
    PrevTab,
    /// Select the tab with this index.
    TabSelect(usize),
    /// Open a new tab.
    NewTab,
    /// Render the active tab again.
    Reload,
    /// Give the address bar the focus.
    FocusAddress,
}

/// The value of a digit key `1`..`9`.
pub open spec fn tab_digit(c: char) -> Option<usize> {
    if '1' <= c && c <= '9' {
        Some(((c as u32) - 49) as usize)
    } else {
        None
    }
}

/// The shortcut that a key press with the given modifiers matches.
pub open spec fn shortcut_of(m: Modifiers, key: Key) -> Option<ShortcutAction> {
    if !m.control && !m.alt && !m.meta {
        if key == Key::Escape {
            Some(ShortcutAction::Close)
        } else {
            None
        }
    } else if m.control && !m.alt && !m.meta {
        match key {
            Key::Character(c) => if c == 't' || c == 'T' {
                Some(ShortcutAction::NewTab)
            } else if c == 'w' || c == 'W' {
                Some(ShortcutAction::CloseTab)
            } else if c == 'r' || c == 'R' {
                Some(ShortcutAction::Reload)
            } else if c == 'l' || c == 'L' {
                Some(ShortcutAction::FocusAddress)
            } else {
                match tab_digit(c) {
                    Some(n) => Some(ShortcutAction::TabSelect(n)),
                    None => None,
                }
            },
            Key::PageDown => Some(ShortcutAction::NextTab),
            Key::PageUp => Some(ShortcutAction::PrevTab),
            _ => None,
        }
    } else {
        None
    }
}

/// Matches a key press against the shell shortcuts.
pub fn match_shortcut(m: Modifiers, key: Key) -> (r: Option<ShortcutAction>)
    ensures
        r == shortcut_of(m, key),
{
    if !m.control && !m.alt && !m.meta {
        if key == Key::Escape {
            Some(ShortcutAction::Close)
        } else {
            None
        }
    } else if m.control && !m.alt && !m.meta {
        match key {
            Key::Character(c) => {
                if c == 't' || c == 'T' {
                    Some(ShortcutAction::NewTab)
                } else if c == 'w' || c == 'W' {
                    Some(ShortcutAction::CloseTab)
                } else if c == 'r' || c == 'R' {
                    Some(ShortcutAction::Reload)
                } else if c == 'l' || c == 'L' {
                    Some(ShortcutAction::FocusAddress)
                } else if '1' <= c && c <= '9' {
                    Some(ShortcutAction::TabSelect(digit_index(c)))
                } else {
                    None
                }
            },
            Key::PageDown => Some(ShortcutAction::NextTab),
            Key::PageUp => Some(ShortcutAction::PrevTab),
            _ => None,
        }
    } else {
        None
    }
}

fn digit_index(c: char) -> (n: usize)
    requires
        '1' <= c && c <= '9',
    ensures
        tab_digit(c) == Some(n),
{
    match c {
        '1' => 0,
        '2' => 1,
        '3' => 2,
        '4' => 3,
        '5' => 4,
        '6' => 5,
        '7' => 6,
        '8' => 7,
        _ => 8,
    }
}

// ───────────────────────────── address bar ─────────────────────────────

/// A key that edits the focused address bar.
#[derive(Clone, Copy, Debug, PartialEq, Eq, Structural)]
pub enum AddressKey {
    /// Type a character.
    Char(char),
    /// Delete the last character.
    Backspace,
    /// Submit the address.
    Enter,
    /// Drop the focus.
    Escape,
}

/// The address bar: whether it has the keyboard focus, and its text.
#[derive(Clone, Debug)]
pub struct AddressBar {
    pub focused: bool,
    pub text: String,
}

/// Mathematical model of the address bar.
pub struct AddressModel {
    pub focused: bool,
    pub text: Seq<char>,
}

impl View for AddressBar {
    type V = AddressModel;

    open spec fn view(&self) -> AddressModel {
        AddressModel { focused: self.focused, text: self.text@ }
    }
}

/// What chrome input asks the window to do.
#[derive(Debug, PartialEq, Eq)]
pub enum ChromeEffect {
    /// Draw the chrome again.
    Repaint,
    /// Select tab `i`.
    SwitchTab(usize),
    /// Close tab `i`.
    CloseTab(usize),
    /// Open a new tab.
    NewTab,
    /// Render the active tab again.
    ReloadPage,
    /// Navigate the active tab to what was typed.
    UrlSubmitted(String),
}

/// Mathematical model of a chrome effect.
pub enum EffectModel {
    Repaint,
    SwitchTab(usize),
    CloseTab(usize),
    NewTab,
    ReloadPage,
    UrlSubmitted(Seq<char>),
}

impl View for ChromeEffect {
    type V = EffectModel;

    open spec fn view(&self) -> EffectModel {
        match self {
            ChromeEffect::Repaint => EffectModel::Repaint,
            ChromeEffect::SwitchTab(i) => EffectModel::SwitchTab(*i),
            ChromeEffect::CloseTab(i) => EffectModel::CloseTab(*i),
            ChromeEffect::NewTab => EffectModel::NewTab,
            ChromeEffect::ReloadPage => EffectModel::ReloadPage,
            ChromeEffect::UrlSubmitted(u) => EffectModel::UrlSubmitted(u@),
        }
    }
}

/// The address bar after a key, and the effect it asks for: characters
/// are appended, Backspace drops the last one, Enter submits the text and
/// drops the focus, Escape drops the focus. Without the focus a key changes
/// nothing.
pub open spec fn address_after(b: AddressModel, k: AddressKey) -> (AddressModel, EffectModel) {
    if !b.focused {
        (b, EffectModel::Repaint)
    } else {
        match k {
            AddressKey::Char(c) => (AddressModel { text: b.text.push(c), ..b }, EffectModel::Repaint),
            AddressKey::Backspace => (
                AddressModel {
                    text: if b.text.len() > 0 {
                        b.text.drop_last()
                    } else {
                        b.text
                    },
                    ..b
                },
                EffectModel::Repaint,
            ),
            AddressKey::Enter => (
                AddressModel { focused: false, ..b },
                EffectModel::UrlSubmitted(b.text),
            ),
            AddressKey::Escape => (AddressModel { focused: false, ..b }, EffectModel::Repaint),
        }
    }
}

impl AddressBar {
    /// An empty address bar without the focus.
    pub fn new() -> (b: Self)
        ensures
            b@ == (AddressModel { focused: false, text: Seq::empty() }),
    {
        AddressBar { focused: false, text: String::new() }
    }

    /// Applies a key to the address bar and returns the effect.
    pub fn apply_key(&mut self, k: AddressKey) -> (e: ChromeEffect)
        ensures
            (final(self)@, e@) == address_after(old(self)@, k),
    {
        if !self.focused {
            return ChromeEffect::Repaint;
        }
        match k {
            AddressKey::Char(c) => {
                let mut v = crate::text::str_to_chars(self.text.as_str());
                v.push(c);
                self.text = crate::text::chars_to_string(&v);
                ChromeEffect::Repaint
            },
            AddressKey::Backspace => {
                let mut v = crate::text::str_to_chars(self.text.as_str());
                if v.len() > 0 {
                    v.pop();
                }
                self.text = crate::text::chars_to_string(&v);
                proof {
                    if old(self)@.text.len() > 0 {
                        assert(v@ =~= old(self)@.text.drop_last());
                    }
                }
                ChromeEffect::Repaint
            },
            AddressKey::Enter => {
                self.focused = false;
                ChromeEffect::UrlSubmitted(self.text.clone())
            },
            AddressKey::Escape => {
                self.focused = false;
                ChromeEffect::Repaint
            },
        }
    }
}

// ───────────────────────────── key routing ─────────────────────────────

/// Where a key press goes.
#[derive(Clone, Copy, Debug, PartialEq, Eq, Structural)]
pub enum KeyRoute {
    /// Escape while the address bar has focus: the bar drops the focus and
    /// the window stays open.
    AddressEscape,
    /// A matched shortcut.
    Shortcut(ShortcutAction),
    /// A plain key for the focused address bar.
    AddressKey(AddressKey),
    /// Nothing.
    Ignored,
}

/// The address-bar key for a key, if it edits the bar.
pub open spec fn address_key_of(key: Key) -> Option<AddressKey> {
    match key {
        Key::Character(c) => Some(AddressKey::Char(c)),
        Key::Backspace => Some(AddressKey::Backspace),
        Key::Enter => Some(AddressKey::Enter),
        _ => None,
    }
}

/// Where a key press goes: Escape to a focused address bar first, then a
/// matched shortcut, then, without Ctrl, Alt or Meta, a character,
/// Backspace or Enter to the focused address bar.
pub open spec fn key_route(
    address_focused: bool,
    ctrl: bool,
    alt: bool,
    meta: bool,
    key: Key,
    shortcut: Option<ShortcutAction>,
) -> KeyRoute {
    if address_focused && key == Key::Escape {
        KeyRoute::AddressEscape
    } else if shortcut is Some {
        KeyRoute::Shortcut(shortcut->0)
    } else if address_focused && !ctrl && !alt && !meta && address_key_of(key) is Some {
        KeyRoute::AddressKey(address_key_of(key)->0)
    } else {
        KeyRoute::Ignored
    }
}

/// Routes a key press; `shortcut` is what the key matched (see
/// [`match_shortcut`]).
pub fn route_key(
    address_focused: bool,
    ctrl: bool,
    alt: bool,
    meta: bool,
    key: Key,
    shortcut: Option<ShortcutAction>,
) -> (r: KeyRoute)
    ensures
        r == key_route(address_focused, ctrl, alt, meta, key, shortcut),
{
    if address_focused && key == Key::Escape {
        return KeyRoute::AddressEscape;
    }
    if let Some(a) = shortcut {
        return KeyRoute::Shortcut(a);
    }
    if address_focused && !ctrl && !alt && !meta {
        match key {
            Key::Character(c) => KeyRoute::AddressKey(AddressKey::Char(c)),
            Key::Backspace => KeyRoute::AddressKey(AddressKey::Backspace),
            Key::Enter => KeyRoute::AddressKey(AddressKey::Enter),
            _ => KeyRoute::Ignored,
        }
    } else {
        KeyRoute::Ignored
    }
}

} // verus!
