//! HTML tokenization (WHATWG HTML §13.2.5).
//!
//! The tokenizer consumes a sequence of code points and emits tokens:
//! DOCTYPE, start/end tags, comments, characters and end-of-file. The
//! states of §13.2.5 that matter for the supported content models are
//! covered: data, RCDATA, RAWTEXT (also used for script data), PLAINTEXT,
//! tag open, end tag open, tag name, the attribute states, markup
//! declaration open, comment, bogus comment, DOCTYPE (name, public and
//! system identifiers) and character references (the named references
//! `&amp; &lt; &gt; &quot; &apos; &nbsp;` and numeric references).
//!
//! The behaviour is specified by [`spec_next_token`], a function of the
//! input and the tokenizer state; [`HtmlTokenizer::next_token`] is proved to
//! follow it.
use vstd::prelude::*;
use crate::text::{
    chars_eq, copy_range, is_ascii_alpha, is_ascii_digit, lemma_lower_seq_no_upper, lower_range,
    lower_seq, match_at, match_at_ci, no_ascii_upper, occurs_at, occurs_at_ci, str_to_chars,
};

verus! {

// ───────────────────────────── tokens ─────────────────────────────

/// Whether a tag token is a start tag or an end tag.
#[derive(Clone, Copy, Debug, PartialEq, Eq, Structural)]
pub enum TagKind {
    Start,
    End,
}

/// One attribute of a tag token (name lower-cased).
#[derive(Debug)]
pub struct TokenAttr {
    pub name: Vec<char>,
    pub value: Vec<char>,
}

/// A start or end tag token.
#[derive(Debug)]
pub struct TagToken {
    pub kind: TagKind,
    /// Tag name, ASCII lower-cased.
    pub name: Vec<char>,
    /// Attributes in source order; a repeated name keeps its first value.
    pub attrs: Vec<TokenAttr>,
    pub self_closing: bool,
}

/// A DOCTYPE token.
#[derive(Debug)]
pub struct DoctypeToken {
    pub name: Option<Vec<char>>,
    pub public_id: Option<Vec<char>>,
    pub system_id: Option<Vec<char>>,
}

/// A token emitted by the tokenizer.
#[derive(Debug)]
pub enum Token {
    Doctype(DoctypeToken),
    Tag(TagToken),
    Comment(Vec<char>),
    Character(char),
    EOF,
}

/// Mathematical model of a tag token.
pub struct SpecTag {
    pub kind: TagKind,
    pub name: Seq<char>,
    pub attrs: Seq<(Seq<char>, Seq<char>)>,
    pub self_closing: bool,
}

/// Mathematical model of a DOCTYPE token.
pub struct SpecDoctype {
    pub name: Option<Seq<char>>,
    pub public_id: Option<Seq<char>>,
    pub system_id: Option<Seq<char>>,
}

/// Mathematical model of a token.
pub enum SpecToken {
    Doctype(SpecDoctype),
    Tag(SpecTag),
    Comment(Seq<char>),
    Character(char),
    EOF,
}

pub open spec fn opt_view(o: Option<Vec<char>>) -> Option<Seq<char>> {
    match o {
        Some(v) => Some(v@),
        None => None,
    }
}

pub open spec fn attrs_view(a: Seq<TokenAttr>) -> Seq<(Seq<char>, Seq<char>)> {
    a.map_values(|x: TokenAttr| (x.name@, x.value@))
}

impl View for TagToken {
    type V = SpecTag;

    open spec fn view(&self) -> SpecTag {
        SpecTag {
            kind: self.kind,
            name: self.name@,
            attrs: attrs_view(self.attrs@),
            self_closing: self.self_closing,
        }
    }
}

impl View for DoctypeToken {
    type V = SpecDoctype;

    open spec fn view(&self) -> SpecDoctype {
        SpecDoctype {
            name: opt_view(self.name),
            public_id: opt_view(self.public_id),
            system_id: opt_view(self.system_id),
        }
    }
}

impl View for Token {
    type V = SpecToken;

    open spec fn view(&self) -> SpecToken {
        match self {
            Token::Doctype(d) => SpecToken::Doctype(d@),
            Token::Tag(t) => SpecToken::Tag(t@),
            Token::Comment(c) => SpecToken::Comment(c@),
            Token::Character(c) => SpecToken::Character(*c),
            Token::EOF => SpecToken::EOF,
        }
    }
}

/// The content model the tokenizer is in (§13.2.5.1–§13.2.5.5).
#[derive(Clone, Copy, Debug, PartialEq, Eq, Structural)]
pub enum LexState {
    /// Data state.
    Data,
    /// RCDATA state (`<title>`, `<textarea>`): character references decoded.
    RcData,
    /// RAWTEXT / script data state (`<style>`, `<script>`, ...).
    RawText,
    /// PLAINTEXT state: everything up to EOF is text.
    PlainText,
}

// ──────────────────────── specification ────────────────────────

/// Whitespace inside tags (tab, LF, FF, CR, space).
pub open spec fn is_space(c: char) -> bool {
    c == '\t' || c == '\n' || c == '\x0C' || c == '\r' || c == ' '
}

/// The classes of characters that end a scan.
#[derive(Clone, Copy, PartialEq, Eq, Structural)]
pub enum Stop {
    /// Tag name: whitespace, `/` or `>`.
    TagName,
    /// Attribute name: whitespace, `/`, `>` or `=`.
    AttrName,
    /// Unquoted attribute value or DOCTYPE name: whitespace or `>`.
    Unquoted,
    /// Quoted attribute value: the quote.
    Quote(char),
    /// Quoted DOCTYPE identifier: the quote or `>`.
    QuoteOrGt(char),
    /// Bogus comment / bogus DOCTYPE: `>`.
    Gt,
    /// Non-digit (decimal).
    NotDec,
    /// Non-digit (hexadecimal).
    NotHex,
}

pub open spec fn is_hex_digit(c: char) -> bool {
    is_ascii_digit(c) || ('a' <= c && c <= 'f') || ('A' <= c && c <= 'F')
}

pub open spec fn stops(st: Stop, c: char) -> bool {
    match st {
        Stop::TagName => is_space(c) || c == '/' || c == '>',
        Stop::AttrName => is_space(c) || c == '/' || c == '>' || c == '=',
        Stop::Unquoted => is_space(c) || c == '>',
        Stop::Quote(q) => c == q,
        Stop::QuoteOrGt(q) => c == q || c == '>',
        Stop::Gt => c == '>',
        Stop::NotDec => !is_ascii_digit(c),
        Stop::NotHex => !is_hex_digit(c),
    }
}

/// First index `j >= i` whose character stops the scan, or `s.len()`.
pub open spec fn scan(s: Seq<char>, i: int, st: Stop) -> int
    decreases s.len() - i,
{
    if i >= s.len() {
        s.len() as int
    } else if i < 0 {
        0
    } else if stops(st, s[i]) {
        i
    } else {
        scan(s, i + 1, st)
    }
}

/// First index `j >= i` that is not whitespace, or `s.len()`.
pub open spec fn skip_ws(s: Seq<char>, i: int) -> int
    decreases s.len() - i,
{
    if i >= s.len() {
        s.len() as int
    } else if i < 0 {
        0
    } else if is_space(s[i]) {
        skip_ws(s, i + 1)
    } else {
        i
    }
}

/// First index `j >= i` at which `-->` occurs, or `s.len()`.
pub open spec fn find_comment_end(s: Seq<char>, i: int) -> int
    decreases s.len() - i,
{
    if i >= s.len() {
        s.len() as int
    } else if i < 0 {
        0
    } else if occurs_at(s, i, seq!['-', '-', '>']) {
        i
    } else {
        find_comment_end(s, i + 1)
    }
}

/// Value of one (hexadecimal or decimal) digit.
pub open spec fn digit_value(c: char, hex: bool) -> u32 {
    if '0' <= c && c <= '9' {
        ((c as u32) - ('0' as u32)) as u32
    } else if hex && 'a' <= c && c <= 'f' {
        ((c as u32) - ('a' as u32) + 10) as u32
    } else if hex && 'A' <= c && c <= 'F' {
        ((c as u32) - ('A' as u32) + 10) as u32
    } else {
        0
    }
}

/// Largest code point value the digit accumulator keeps; larger values
/// saturate to it (they all map to U+FFFD).
pub open spec fn numeric_cap() -> u32 {
    0x110000
}

/// Accumulates the numeric value of the digits `s[i..end]` onto `acc`,
/// saturating at [`numeric_cap`].
pub open spec fn digits_value(s: Seq<char>, i: int, end: int, hex: bool, acc: u32) -> u32
    decreases end - i,
{
    if i >= end || i < 0 || end > s.len() {
        acc
    } else {
        let base: u32 = if hex { 16 } else { 10 };
        let next: u32 = if acc >= numeric_cap() {
            numeric_cap()
        } else {
            (acc * base + digit_value(s[i], hex)) as u32
        };
        digits_value(s, i + 1, end, hex, next)
    }
}

/// Code point validity for a numeric character reference.
pub open spec fn valid_scalar(v: u32) -> bool {
    v != 0 && v <= 0x10FFFF && !(0xD800 <= v && v <= 0xDFFF)
}

/// The character a numeric character reference stands for (§13.2.5.80):
/// invalid values (zero, surrogates, beyond U+10FFFF) become U+FFFD.
pub open spec fn numeric_char(v: u32) -> char {
    if valid_scalar(v) {
        v as char
    } else {
        '\u{FFFD}'
    }
}

/// Named character references recognised by the tokenizer (with their
/// terminating semicolon): returns the character and the length matched.
pub open spec fn named_ref(s: Seq<char>, j: int) -> Option<(char, int)> {
    if occurs_at(s, j, "amp;"@) {
        Some(('&', 4))
    } else if occurs_at(s, j, "lt;"@) {
        Some(('<', 3))
    } else if occurs_at(s, j, "gt;"@) {
        Some(('>', 3))
    } else if occurs_at(s, j, "quot;"@) {
        Some(('"', 5))
    } else if occurs_at(s, j, "apos;"@) {
        Some(('\'', 5))
    } else if occurs_at(s, j, "nbsp;"@) {
        Some(('\u{A0}', 5))
    } else {
        None
    }
}

pub proof fn lemma_named_ref_bounds(s: Seq<char>, j: int)
    ensures
        named_ref(s, j) matches Some((c, n)) ==> 0 < n && j + n <= s.len(),
{
    reveal_strlit("amp;");
    reveal_strlit("lt;");
    reveal_strlit("gt;");
    reveal_strlit("quot;");
    reveal_strlit("apos;");
    reveal_strlit("nbsp;");
}

/// Character reference starting at `i` (where `s[i] == '&'`): the decoded
/// character and the position after the reference. When no reference is
/// recognised the ampersand stands for itself.
pub open spec fn char_ref(s: Seq<char>, i: int) -> (char, int) {
    if i + 1 < s.len() && s[i + 1] == '#' {
        let hex = i + 2 < s.len() && (s[i + 2] == 'x' || s[i + 2] == 'X');
        let d0 = if hex { i + 3 } else { i + 2 };
        let de = scan(s, d0, if hex { Stop::NotHex } else { Stop::NotDec });
        if de <= d0 {
            ('&', i + 1)
        } else {
            let v = digits_value(s, d0, de, hex, 0);
            let end = if de < s.len() && s[de] == ';' { de + 1 } else { de };
            (numeric_char(v), end)
        }
    } else {
        match named_ref(s, i + 1) {
            Some((c, n)) => (c, i + 1 + n),
            None => ('&', i + 1),
        }
    }
}

/// Adds an attribute unless one with the same name is already present
/// (§13.2.5.33: a duplicate attribute is dropped).
pub open spec fn add_attr(
    acc: Seq<(Seq<char>, Seq<char>)>,
    name: Seq<char>,
    value: Seq<char>,
) -> Seq<(Seq<char>, Seq<char>)> {
    if exists|k: int| 0 <= k < acc.len() && (#[trigger] acc[k]).0 == name {
        acc
    } else {
        acc.push((name, value))
    }
}

/// Result of the attribute states: the attributes, the position after the
/// tag, whether it was self-closing, and whether input ended inside the tag.
pub struct AttrScan {
    pub attrs: Seq<(Seq<char>, Seq<char>)>,
    pub pos: int,
    pub self_closing: bool,
    pub eof: bool,
}

/// Attribute states (§13.2.5.32–§13.2.5.40) starting at `p`, with the
/// attributes read so far in `acc`.
pub open spec fn attr_loop(s: Seq<char>, p: int, acc: Seq<(Seq<char>, Seq<char>)>) -> AttrScan
    decreases s.len() - p,
{
    let q = skip_ws(s, p);
    if p < 0 || q >= s.len() {
        AttrScan { attrs: acc, pos: s.len() as int, self_closing: false, eof: true }
    } else if s[q] == '>' {
        AttrScan { attrs: acc, pos: q + 1, self_closing: false, eof: false }
    } else if s[q] == '/' {
        if q + 1 < s.len() && s[q + 1] == '>' {
            AttrScan { attrs: acc, pos: q + 2, self_closing: true, eof: false }
        } else {
            proof {
                lemma_skip_ws_bounds(s, p);
            }
            attr_loop(s, q + 1, acc)
        }
    } else {
        let ne = scan(s, q + 1, Stop::AttrName);
        let name = lower_seq(s.subrange(q, ne));
        let r = skip_ws(s, ne);
        proof {
            lemma_skip_ws_bounds(s, p);
            lemma_scan_bounds(s, q + 1, Stop::AttrName);
            lemma_skip_ws_bounds(s, ne);
        }
        if r < s.len() && s[r] == '=' {
            let v0 = skip_ws(s, r + 1);
            proof {
                lemma_skip_ws_bounds(s, r + 1);
            }
            if v0 >= s.len() {
                AttrScan { attrs: acc, pos: s.len() as int, self_closing: false, eof: true }
            } else if s[v0] == '"' || s[v0] == '\'' {
                let ve = scan(s, v0 + 1, Stop::Quote(s[v0]));
                proof {
                    lemma_scan_bounds(s, v0 + 1, Stop::Quote(s[v0]));
                }
                if ve >= s.len() {
                    AttrScan { attrs: acc, pos: s.len() as int, self_closing: false, eof: true }
                } else {
                    attr_loop(s, ve + 1, add_attr(acc, name, s.subrange(v0 + 1, ve)))
                }
            } else if s[v0] == '>' {
                attr_loop(s, v0, add_attr(acc, name, Seq::empty()))
            } else {
                let ve = scan(s, v0, Stop::Unquoted);
                proof {
                    lemma_scan_bounds(s, v0, Stop::Unquoted);
                }
                attr_loop(s, ve, add_attr(acc, name, s.subrange(v0, ve)))
            }
        } else {
            attr_loop(s, r, add_attr(acc, name, Seq::empty()))
        }
    }
}

/// Tag name state and what follows, for a tag whose name starts at `k`
/// (§13.2.5.8). Input ending inside the tag yields the EOF token.
pub open spec fn tag_token(s: Seq<char>, k: int, kind: TagKind) -> (SpecToken, int) {
    let e = scan(s, k, Stop::TagName);
    let name = lower_seq(s.subrange(k, e));
    if e >= s.len() {
        (SpecToken::EOF, s.len() as int)
    } else {
        let a = attr_loop(s, e, Seq::empty());
        if a.eof {
            (SpecToken::EOF, s.len() as int)
        } else {
            (
                SpecToken::Tag(
                    SpecTag { kind, name, attrs: a.attrs, self_closing: a.self_closing },
                ),
                a.pos,
            )
        }
    }
}

/// Comment start and comment states (§13.2.5.43–§13.2.5.52) for comment
/// data starting at `k` (just after `<!--`).
pub open spec fn comment_token(s: Seq<char>, k: int) -> (SpecToken, int) {
    if k < s.len() && s[k] == '>' {
        (SpecToken::Comment(Seq::empty()), k + 1)
    } else if k + 1 < s.len() && s[k] == '-' && s[k + 1] == '>' {
        (SpecToken::Comment(Seq::empty()), k + 2)
    } else {
        let e = find_comment_end(s, k);
        if e >= s.len() {
            (SpecToken::Comment(s.subrange(k, s.len() as int)), s.len() as int)
        } else {
            (SpecToken::Comment(s.subrange(k, e)), e + 3)
        }
    }
}

/// Bogus comment state (§13.2.5.41): everything up to `>`.
pub open spec fn bogus_comment(s: Seq<char>, k: int) -> (SpecToken, int) {
    let e = scan(s, k, Stop::Gt);
    if e >= s.len() {
        (SpecToken::Comment(s.subrange(k, s.len() as int)), s.len() as int)
    } else {
        (SpecToken::Comment(s.subrange(k, e)), e + 1)
    }
}

/// A quoted DOCTYPE identifier at `c` (§13.2.5.58–§13.2.5.59): the
/// identifier (if the next character is a quote) and the position after
/// it. A `>` ends the identifier early and is left in place.
pub open spec fn quoted_id(s: Seq<char>, c: int) -> (Option<Seq<char>>, int) {
    if 0 <= c < s.len() && (s[c] == '"' || s[c] == '\'') {
        let e = scan(s, c + 1, Stop::QuoteOrGt(s[c]));
        if e >= s.len() {
            (Some(s.subrange(c + 1, s.len() as int)), s.len() as int)
        } else if s[e] == '>' {
            (Some(s.subrange(c + 1, e)), e)
        } else {
            (Some(s.subrange(c + 1, e)), e + 1)
        }
    } else {
        (None, c)
    }
}

/// Ends a DOCTYPE token: skips to the next `>`.
pub open spec fn doctype_end(s: Seq<char>, p: int) -> int {
    let e = scan(s, p, Stop::Gt);
    if e >= s.len() {
        s.len() as int
    } else {
        e + 1
    }
}

/// DOCTYPE states (§13.2.5.53–§13.2.5.67) starting at `k` (just after
/// `<!DOCTYPE`).
pub open spec fn doctype_token(s: Seq<char>, k: int) -> (SpecToken, int) {
    let a = skip_ws(s, k);
    let none = SpecDoctype { name: None, public_id: None, system_id: None };
    if a >= s.len() {
        (SpecToken::Doctype(none), s.len() as int)
    } else if s[a] == '>' {
        (SpecToken::Doctype(none), a + 1)
    } else {
        let ne = scan(s, a, Stop::Unquoted);
        let name = Some(lower_seq(s.subrange(a, ne)));
        let b = skip_ws(s, ne);
        if occurs_at_ci(s, b, "public"@) {
            let (pid, p1) = quoted_id(s, skip_ws(s, b + 6));
            let (sid, p2) = quoted_id(s, skip_ws(s, p1));
            (
                SpecToken::Doctype(SpecDoctype { name, public_id: pid, system_id: sid }),
                doctype_end(s, p2),
            )
        } else if occurs_at_ci(s, b, "system"@) {
            let (sid, p1) = quoted_id(s, skip_ws(s, b + 6));
            (
                SpecToken::Doctype(SpecDoctype { name, public_id: None, system_id: sid }),
                doctype_end(s, p1),
            )
        } else {
            (
                SpecToken::Doctype(SpecDoctype { name, public_id: None, system_id: None }),
                doctype_end(s, b),
            )
        }
    }
}

/// Markup declaration open state (§13.2.5.42), at `j` just after `<!`.
pub open spec fn markup_decl(s: Seq<char>, j: int) -> (SpecToken, int) {
    if occurs_at(s, j, "--"@) {
        comment_token(s, j + 2)
    } else if occurs_at_ci(s, j, "doctype"@) {
        doctype_token(s, j + 7)
    } else {
        bogus_comment(s, j)
    }
}

/// Data state and tag open state (§13.2.5.1, §13.2.5.6, §13.2.5.7) at `i`.
/// `None` means no token is emitted (`</>`), and tokenizing continues at
/// the returned position.
pub open spec fn data_step(s: Seq<char>, i: int) -> (Option<SpecToken>, int) {
    let c = s[i];
    if c == '&' {
        let (d, p) = char_ref(s, i);
        (Some(SpecToken::Character(d)), p)
    } else if c != '<' || i + 1 >= s.len() {
        (Some(SpecToken::Character(c)), i + 1)
    } else {
        let n = s[i + 1];
        if n == '!' {
            let (t, p) = markup_decl(s, i + 2);
            (Some(t), p)
        } else if n == '/' {
            if i + 2 >= s.len() {
                (Some(SpecToken::Character('<')), i + 1)
            } else if is_ascii_alpha(s[i + 2]) {
                let (t, p) = tag_token(s, i + 2, TagKind::End);
                (Some(t), p)
            } else if s[i + 2] == '>' {
                (None, i + 3)
            } else {
                let (t, p) = bogus_comment(s, i + 2);
                (Some(t), p)
            }
        } else if is_ascii_alpha(n) {
            let (t, p) = tag_token(s, i + 1, TagKind::Start);
            (Some(t), p)
        } else if n == '?' {
            let (t, p) = bogus_comment(s, i + 1);
            (Some(t), p)
        } else {
            (Some(SpecToken::Character('<')), i + 1)
        }
    }
}

/// Appropriate end tag test in RCDATA/RAWTEXT (§13.2.5.11): `</` followed
/// by the name of the last start tag and then whitespace, `/` or `>`.
pub open spec fn is_appropriate_end(s: Seq<char>, i: int, last: Seq<char>) -> bool {
    &&& 0 <= i
    &&& last.len() > 0
    &&& i + 2 + last.len() < s.len()
    &&& s[i] == '<'
    &&& s[i + 1] == '/'
    &&& lower_seq(s.subrange(i + 2, i + 2 + last.len())) == last
    &&& stops(Stop::TagName, s[i + 2 + last.len()])
}

/// The next token at position `i` in lexical state `st`, with `last` the
/// name of the last start tag emitted: the token and the position after it.
pub open spec fn spec_next_token(s: Seq<char>, i: int, st: LexState, last: Seq<char>) -> (
    SpecToken,
    int,
)
    decreases s.len() - i,
{
    if i >= s.len() || i < 0 {
        (SpecToken::EOF, s.len() as int)
    } else {
        match st {
            LexState::Data => {
                let (t, p) = data_step(s, i);
                match t {
                    Some(t) => (t, p),
                    None => if p > i {
                        spec_next_token(s, p, st, last)
                    } else {
                        (SpecToken::EOF, s.len() as int)
                    },
                }
            },
            LexState::RcData => {
                if is_appropriate_end(s, i, last) {
                    tag_token(s, i + 2, TagKind::End)
                } else if s[i] == '&' {
                    let (d, p) = char_ref(s, i);
                    (SpecToken::Character(d), p)
                } else {
                    (SpecToken::Character(s[i]), i + 1)
                }
            },
            LexState::RawText => {
                if is_appropriate_end(s, i, last) {
                    tag_token(s, i + 2, TagKind::End)
                } else {
                    (SpecToken::Character(s[i]), i + 1)
                }
            },
            LexState::PlainText => (SpecToken::Character(s[i]), i + 1),
        }
    }
}

/// Mathematical model of the tokenizer.
pub struct TokenizerModel {
    pub input: Seq<char>,
    pub pos: int,
    pub state: LexState,
    pub last_start_tag: Seq<char>,
    pub done: bool,
}

/// One step of the tokenizer: the token emitted (none once EOF has been
/// emitted) and the next tokenizer state. Emitting a tag returns the
/// tokenizer to the data state (in RCDATA and RAWTEXT a tag is only ever
/// the appropriate end tag, §13.2.5.11).
pub open spec fn tokenizer_step(m: TokenizerModel) -> (Option<SpecToken>, TokenizerModel) {
    if m.done {
        (None, m)
    } else {
        let (t, p) = spec_next_token(m.input, m.pos, m.state, m.last_start_tag);
        let last = match t {
            SpecToken::Tag(tag) => if tag.kind == TagKind::Start {
                tag.name
            } else {
                m.last_start_tag
            },
            _ => m.last_start_tag,
        };
        (
            Some(t),
            TokenizerModel {
                input: m.input,
                pos: p,
                state: if t is Tag {
                    LexState::Data
                } else {
                    m.state
                },
                last_start_tag: last,
                done: t is EOF,
            },
        )
    }
}

// ─────────────────────── lemmas about scans ───────────────────────

pub proof fn lemma_scan_bounds(s: Seq<char>, i: int, st: Stop)
    requires
        0 <= i,
    ensures
        i <= scan(s, i, st) <= s.len() || (i > s.len() && scan(s, i, st) == s.len()),
        scan(s, i, st) < s.len() ==> stops(st, s[scan(s, i, st)]),
    decreases s.len() - i,
{
    if i < s.len() && !stops(st, s[i]) {
        lemma_scan_bounds(s, i + 1, st);
    }
}

pub proof fn lemma_skip_ws_bounds(s: Seq<char>, i: int)
    requires
        0 <= i,
    ensures
        i <= skip_ws(s, i) <= s.len() || (i > s.len() && skip_ws(s, i) == s.len()),
        skip_ws(s, i) < s.len() ==> !is_space(s[skip_ws(s, i)]),
    decreases s.len() - i,
{
    if i < s.len() && is_space(s[i]) {
        lemma_skip_ws_bounds(s, i + 1);
    }
}

pub proof fn lemma_find_comment_end_bounds(s: Seq<char>, i: int)
    requires
        0 <= i,
    ensures
        i <= find_comment_end(s, i) <= s.len() || (i > s.len() && find_comment_end(s, i)
            == s.len()),
        find_comment_end(s, i) < s.len() ==> occurs_at(s, find_comment_end(s, i), seq!['-', '-', '>']),
    decreases s.len() - i,
{
    if i < s.len() && !occurs_at(s, i, seq!['-', '-', '>']) {
        lemma_find_comment_end_bounds(s, i + 1);
    }
}

pub proof fn lemma_attr_loop_bounds(s: Seq<char>, p: int, acc: Seq<(Seq<char>, Seq<char>)>)
    requires
        0 <= p,
    ensures
        attr_loop(s, p, acc).pos <= s.len(),
        attr_loop(s, p, acc).pos > p || attr_loop(s, p, acc).pos == s.len(),
    decreases s.len() - p,
{
    let q = skip_ws(s, p);
    lemma_skip_ws_bounds(s, p);
    if q >= s.len() {
    } else if s[q] == '>' {
    } else if s[q] == '/' {
        if q + 1 < s.len() && s[q + 1] == '>' {
        } else {
            lemma_attr_loop_bounds(s, q + 1, acc);
        }
    } else {
        let ne = scan(s, q + 1, Stop::AttrName);
        lemma_scan_bounds(s, q + 1, Stop::AttrName);
        let name = lower_seq(s.subrange(q, ne));
        let r = skip_ws(s, ne);
        lemma_skip_ws_bounds(s, ne);
        if r < s.len() && s[r] == '=' {
            let v0 = skip_ws(s, r + 1);
            lemma_skip_ws_bounds(s, r + 1);
            if v0 >= s.len() {
            } else if s[v0] == '"' || s[v0] == '\'' {
                let ve = scan(s, v0 + 1, Stop::Quote(s[v0]));
                lemma_scan_bounds(s, v0 + 1, Stop::Quote(s[v0]));
                if ve >= s.len() {
                } else {
                    lemma_attr_loop_bounds(s, ve + 1, add_attr(acc, name, s.subrange(v0 + 1, ve)));
                }
            } else if s[v0] == '>' {
                lemma_attr_loop_bounds(s, v0, add_attr(acc, name, Seq::empty()));
            } else {
                let ve = scan(s, v0, Stop::Unquoted);
                lemma_scan_bounds(s, v0, Stop::Unquoted);
                lemma_attr_loop_bounds(s, ve, add_attr(acc, name, s.subrange(v0, ve)));
            }
        } else {
            lemma_attr_loop_bounds(s, r, add_attr(acc, name, Seq::empty()));
        }
    }
}

// ───────────────────────── implementation ─────────────────────────

/// Wraps `char::from_u32`: the character with the given code point, or
/// `None` for surrogates and values beyond U+10FFFF.
#[verifier::external_body]
fn char_from_u32(v: u32) -> (r: Option<char>)
    ensures
        r == (if v <= 0xD7FF || (0xE000 <= v && v <= 0x10FFFF) {
            Some(v as char)
        } else {
            None
        }),
{
    char::from_u32(v)
}

fn is_space_exec(c: char) -> (r: bool)
    ensures
        r == is_space(c),
{
    c == '\t' || c == '\n' || c == '\x0C' || c == '\r' || c == ' '
}

fn is_alpha_exec(c: char) -> (r: bool)
    ensures
        r == is_ascii_alpha(c),
{
    ('A' <= c && c <= 'Z') || ('a' <= c && c <= 'z')
}

fn stops_exec(st: Stop, c: char) -> (r: bool)
    ensures
        r == stops(st, c),
{
    match st {
        Stop::TagName => is_space_exec(c) || c == '/' || c == '>',
        Stop::AttrName => is_space_exec(c) || c == '/' || c == '>' || c == '=',
        Stop::Unquoted => is_space_exec(c) || c == '>',
        Stop::Quote(q) => c == q,
        Stop::QuoteOrGt(q) => c == q || c == '>',
        Stop::Gt => c == '>',
        Stop::NotDec => !('0' <= c && c <= '9'),
        Stop::NotHex => !(('0' <= c && c <= '9') || ('a' <= c && c <= 'f') || ('A' <= c && c
            <= 'F')),
    }
}

fn scan_exec(s: &Vec<char>, i: usize, st: Stop) -> (r: usize)
    ensures
        r as int == scan(s@, i as int, st),
{
    if i >= s.len() {
        return s.len();
    }
    let mut j = i;
    while j < s.len()
        invariant
            i <= j <= s.len(),
            scan(s@, i as int, st) == scan(s@, j as int, st),
        decreases s.len() - j,
    {
        if stops_exec(st, s[j]) {
            return j;
        }
        j = j + 1;
    }
    j
}

fn skip_ws_exec(s: &Vec<char>, i: usize) -> (r: usize)
    ensures
        r as int == skip_ws(s@, i as int),
{
    if i >= s.len() {
        return s.len();
    }
    let mut j = i;
    while j < s.len()
        invariant
            i <= j <= s.len(),
            skip_ws(s@, i as int) == skip_ws(s@, j as int),
        decreases s.len() - j,
    {
        if !is_space_exec(s[j]) {
            return j;
        }
        j = j + 1;
    }
    j
}

fn find_comment_end_exec(s: &Vec<char>, i: usize) -> (r: usize)
    ensures
        r as int == find_comment_end(s@, i as int),
{
    if i >= s.len() {
        return s.len();
    }
    let mut j = i;
    while j < s.len()
        invariant
            i <= j <= s.len(),
            find_comment_end(s@, i as int) == find_comment_end(s@, j as int),
        decreases s.len() - j,
    {
        if s.len() - j >= 3 && s[j] == '-' && s[j + 1] == '-' && s[j + 2] == '>' {
            assert(s@.subrange(j as int, j + 3) == seq!['-', '-', '>']);
            return j;
        }
        proof {
            if occurs_at(s@, j as int, seq!['-', '-', '>']) {
                assert(s@.subrange(j as int, j + 3)[0] == s@[j as int]);
                assert(s@.subrange(j as int, j + 3)[1] == s@[j + 1]);
                assert(s@.subrange(j as int, j + 3)[2] == s@[j + 2]);
            }
        }
        j = j + 1;
    }
    j
}

fn digit_value_exec(c: char, hex: bool) -> (r: u32)
    ensures
        r == digit_value(c, hex),
        r < 16,
{
    if '0' <= c && c <= '9' {
        (c as u32) - ('0' as u32)
    } else if hex && 'a' <= c && c <= 'f' {
        (c as u32) - ('a' as u32) + 10
    } else if hex && 'A' <= c && c <= 'F' {
        (c as u32) - ('A' as u32) + 10
    } else {
        0
    }
}

fn digits_value_exec(s: &Vec<char>, d0: usize, de: usize, hex: bool) -> (r: u32)
    requires
        d0 <= de <= s.len(),
    ensures
        r == digits_value(s@, d0 as int, de as int, hex, 0),
{
    let mut acc: u32 = 0;
    let mut j = d0;
    while j < de
        invariant
            d0 <= j <= de <= s.len(),
            acc <= numeric_cap() * 16 + 15,
            digits_value(s@, d0 as int, de as int, hex, 0) == digits_value(
                s@,
                j as int,
                de as int,
                hex,
                acc,
            ),
        decreases de - j,
    {
        let base: u32 = if hex { 16 } else { 10 };
        if acc >= 0x110000 {
            acc = 0x110000;
        } else {
            let d = digit_value_exec(s[j], hex);
            acc = acc * base + d;
        }
        j = j + 1;
    }
    acc
}

fn named_ref_exec(s: &Vec<char>, j: usize) -> (r: Option<(char, usize)>)
    ensures
        match named_ref(s@, j as int) {
            Some((c, n)) => r == Some((c, n as usize)),
            None => r is None,
        },
{
    if match_at(s, j, "amp;") {
        Some(('&', 4))
    } else if match_at(s, j, "lt;") {
        Some(('<', 3))
    } else if match_at(s, j, "gt;") {
        Some(('>', 3))
    } else if match_at(s, j, "quot;") {
        Some(('"', 5))
    } else if match_at(s, j, "apos;") {
        Some(('\'', 5))
    } else if match_at(s, j, "nbsp;") {
        Some(('\u{A0}', 5))
    } else {
        None
    }
}

fn numeric_char_exec(v: u32) -> (r: char)
    ensures
        r == numeric_char(v),
{
    if v == 0 || v > 0x10FFFF || (0xD800 <= v && v <= 0xDFFF) {
        '\u{FFFD}'
    } else {
        match char_from_u32(v) {
            Some(c) => c,
            None => '\u{FFFD}',
        }
    }
}

fn char_ref_exec(s: &Vec<char>, i: usize) -> (r: (char, usize))
    requires
        i < s.len(),
        s@[i as int] == '&',
    ensures
        (r.0, r.1 as int) == char_ref(s@, i as int),
        r.1 > i,
        r.1 <= s.len(),
{
    if s.len() - i > 1 && s[i + 1] == '#' {
        let hex = s.len() - i > 2 && (s[i + 2] == 'x' || s[i + 2] == 'X');
        let d0 = if hex { i + 3 } else { i + 2 };
        let de = scan_exec(s, d0, if hex { Stop::NotHex } else { Stop::NotDec });
        proof {
            lemma_scan_bounds(s@, d0 as int, if hex { Stop::NotHex } else { Stop::NotDec });
        }
        if de <= d0 {
            ('&', i + 1)
        } else {
            let v = digits_value_exec(s, d0, de, hex);
            let end = if de < s.len() && s[de] == ';' { de + 1 } else { de };
            (numeric_char_exec(v), end)
        }
    } else {
        proof {
            lemma_named_ref_bounds(s@, i + 1);
        }
        match named_ref_exec(s, i + 1) {
            Some((c, n)) => {
                (c, i + 1 + n)
            },
            None => ('&', i + 1),
        }
    }
}

fn add_attr_exec(acc: &mut Vec<TokenAttr>, name: Vec<char>, value: Vec<char>)
    ensures
        attrs_view(final(acc)@) == add_attr(attrs_view(old(acc)@), name@, value@),
{
    let ghost a = attrs_view(acc@);
    let mut k: usize = 0;
    while k < acc.len()
        invariant
            a == attrs_view(acc@),
            k <= acc.len(),
            forall|m: int| 0 <= m < k ==> (#[trigger] a[m]).0 != name@,
        decreases acc.len() - k,
    {
        if chars_eq(&acc[k].name, &name) {
            assert(a[k as int].0 == name@);
            return;
        }
        k = k + 1;
    }
    acc.push(TokenAttr { name, value });
    assert(attrs_view(acc@) == a.push((name@, value@)));
}

fn attr_loop_exec(s: &Vec<char>, p0: usize) -> (r: (Vec<TokenAttr>, usize, bool, bool))
    ensures
        ({
            let a = attr_loop(s@, p0 as int, Seq::empty());
            attrs_view(r.0@) == a.attrs && r.1 as int == a.pos && r.2 == a.self_closing && r.3
                == a.eof
        }),
{
    let mut acc: Vec<TokenAttr> = Vec::new();
    let mut p = p0;
    proof {
        assert(attrs_view(acc@) == Seq::<(Seq<char>, Seq<char>)>::empty());
    }
    loop
        invariant
            attr_loop(s@, p0 as int, Seq::empty()) == attr_loop(s@, p as int, attrs_view(acc@)),
        decreases s.len() - p,
    {
        let ghost acc0 = attrs_view(acc@);
        let q = skip_ws_exec(s, p);
        proof {
            lemma_skip_ws_bounds(s@, p as int);
        }
        if q >= s.len() {
            return (acc, s.len(), false, true);
        } else if s[q] == '>' {
            return (acc, q + 1, false, false);
        } else if s[q] == '/' {
            if s.len() - q > 1 && s[q + 1] == '>' {
                return (acc, q + 2, true, false);
            } else {
                p = q + 1;
            }
        } else {
            let ne = scan_exec(s, q + 1, Stop::AttrName);
            proof {
                lemma_scan_bounds(s@, q + 1, Stop::AttrName);
            }
            let name = lower_range(s, q, ne);
            let r = skip_ws_exec(s, ne);
            proof {
                lemma_skip_ws_bounds(s@, ne as int);
            }
            if r < s.len() && s[r] == '=' {
                let v0 = skip_ws_exec(s, r + 1);
                proof {
                    lemma_skip_ws_bounds(s@, r + 1);
                }
                if v0 >= s.len() {
                    return (acc, s.len(), false, true);
                } else if s[v0] == '"' || s[v0] == '\'' {
                    let ve = scan_exec(s, v0 + 1, Stop::Quote(s[v0]));
                    proof {
                        lemma_scan_bounds(s@, v0 + 1, Stop::Quote(s@[v0 as int]));
                    }
                    if ve >= s.len() {
                        return (acc, s.len(), false, true);
                    } else {
                        let value = copy_range(s, v0 + 1, ve);
                        add_attr_exec(&mut acc, name, value);
                        p = ve + 1;
                    }
                } else if s[v0] == '>' {
                    add_attr_exec(&mut acc, name, Vec::new());
                    p = v0;
                } else {
                    let ve = scan_exec(s, v0, Stop::Unquoted);
                    proof {
                        lemma_scan_bounds(s@, v0 as int, Stop::Unquoted);
                    }
                    let value = copy_range(s, v0, ve);
                    add_attr_exec(&mut acc, name, value);
                    p = ve;
                }
            } else {
                add_attr_exec(&mut acc, name, Vec::new());
                p = r;
            }
        }
    }
}

fn tag_token_exec(s: &Vec<char>, k: usize, kind: TagKind) -> (r: (Token, usize))
    requires
        k <= s.len(),
    ensures
        (r.0@, r.1 as int) == tag_token(s@, k as int, kind),
{
    let e = scan_exec(s, k, Stop::TagName);
    proof {
        lemma_scan_bounds(s@, k as int, Stop::TagName);
    }
    let name = lower_range(s, k, e);
    if e >= s.len() {
        (Token::EOF, s.len())
    } else {
        let (attrs, pos, self_closing, eof) = attr_loop_exec(s, e);
        if eof {
            (Token::EOF, s.len())
        } else {
            (Token::Tag(TagToken { kind, name, attrs, self_closing }), pos)
        }
    }
}

fn comment_token_exec(s: &Vec<char>, k: usize) -> (r: (Token, usize))
    requires
        k <= s.len(),
    ensures
        (r.0@, r.1 as int) == comment_token(s@, k as int),
{
    if k < s.len() && s[k] == '>' {
        (Token::Comment(Vec::new()), k + 1)
    } else if s.len() - k > 1 && s[k] == '-' && s[k + 1] == '>' {
        (Token::Comment(Vec::new()), k + 2)
    } else {
        let e = find_comment_end_exec(s, k);
        proof {
            lemma_find_comment_end_bounds(s@, k as int);
        }
        if e >= s.len() {
            (Token::Comment(copy_range(s, k, s.len())), s.len())
        } else {
            (Token::Comment(copy_range(s, k, e)), e + 3)
        }
    }
}

fn bogus_comment_exec(s: &Vec<char>, k: usize) -> (r: (Token, usize))
    requires
        k <= s.len(),
    ensures
        (r.0@, r.1 as int) == bogus_comment(s@, k as int),
{
    let e = scan_exec(s, k, Stop::Gt);
    proof {
        lemma_scan_bounds(s@, k as int, Stop::Gt);
    }
    if e >= s.len() {
        (Token::Comment(copy_range(s, k, s.len())), s.len())
    } else {
        (Token::Comment(copy_range(s, k, e)), e + 1)
    }
}

fn quoted_id_exec(s: &Vec<char>, c: usize) -> (r: (Option<Vec<char>>, usize))
    requires
        c <= s.len(),
    ensures
        (opt_view(r.0), r.1 as int) == quoted_id(s@, c as int),
        r.1 <= s.len(),
{
    if c < s.len() && (s[c] == '"' || s[c] == '\'') {
        let e = scan_exec(s, c + 1, Stop::QuoteOrGt(s[c]));
        proof {
            lemma_scan_bounds(s@, c + 1, Stop::QuoteOrGt(s@[c as int]));
        }
        if e >= s.len() {
            (Some(copy_range(s, c + 1, s.len())), s.len())
        } else if s[e] == '>' {
            (Some(copy_range(s, c + 1, e)), e)
        } else {
            (Some(copy_range(s, c + 1, e)), e + 1)
        }
    } else {
        (None, c)
    }
}

fn doctype_end_exec(s: &Vec<char>, p: usize) -> (r: usize)
    requires
        p <= s.len(),
    ensures
        r as int == doctype_end(s@, p as int),
{
    let e = scan_exec(s, p, Stop::Gt);
    proof {
        lemma_scan_bounds(s@, p as int, Stop::Gt);
    }
    if e >= s.len() {
        s.len()
    } else {
        e + 1
    }
}

fn doctype_token_exec(s: &Vec<char>, k: usize) -> (r: (Token, usize))
    requires
        k <= s.len(),
    ensures
        (r.0@, r.1 as int) == doctype_token(s@, k as int),
{
    let a = skip_ws_exec(s, k);
    proof {
        lemma_skip_ws_bounds(s@, k as int);
    }
    if a >= s.len() {
        (Token::Doctype(DoctypeToken { name: None, public_id: None, system_id: None }), s.len())
    } else if s[a] == '>' {
        (Token::Doctype(DoctypeToken { name: None, public_id: None, system_id: None }), a + 1)
    } else {
        let ne = scan_exec(s, a, Stop::Unquoted);
        proof {
            lemma_scan_bounds(s@, a as int, Stop::Unquoted);
        }
        let name = Some(lower_range(s, a, ne));
        let b = skip_ws_exec(s, ne);
        proof {
            lemma_skip_ws_bounds(s@, ne as int);
        }
        proof {
            reveal_strlit("public");
            reveal_strlit("system");
        }
        if match_at_ci(s, b, "public") {
            let c1 = skip_ws_exec(s, b + 6);
            proof {
                lemma_skip_ws_bounds(s@, b + 6);
            }
            let (pid, p1) = quoted_id_exec(s, c1);
            let c2 = skip_ws_exec(s, p1);
            proof {
                lemma_skip_ws_bounds(s@, p1 as int);
            }
            let (sid, p2) = quoted_id_exec(s, c2);
            let end = doctype_end_exec(s, p2);
            (Token::Doctype(DoctypeToken { name, public_id: pid, system_id: sid }), end)
        } else if match_at_ci(s, b, "system") {
            let c1 = skip_ws_exec(s, b + 6);
            proof {
                lemma_skip_ws_bounds(s@, b + 6);
            }
            let (sid, p1) = quoted_id_exec(s, c1);
            let end = doctype_end_exec(s, p1);
            (Token::Doctype(DoctypeToken { name, public_id: None, system_id: sid }), end)
        } else {
            let end = doctype_end_exec(s, b);
            (Token::Doctype(DoctypeToken { name, public_id: None, system_id: None }), end)
        }
    }
}

fn markup_decl_exec(s: &Vec<char>, j: usize) -> (r: (Token, usize))
    requires
        j <= s.len(),
    ensures
        (r.0@, r.1 as int) == markup_decl(s@, j as int),
{
    proof {
        reveal_strlit("--");
        reveal_strlit("doctype");
    }
    if match_at(s, j, "--") {
        comment_token_exec(s, j + 2)
    } else if match_at_ci(s, j, "doctype") {
        doctype_token_exec(s, j + 7)
    } else {
        bogus_comment_exec(s, j)
    }
}

fn data_step_exec(s: &Vec<char>, i: usize) -> (r: (Option<Token>, usize))
    requires
        i < s.len(),
    ensures
        ({
            let (t, p) = data_step(s@, i as int);
            r.1 as int == p && match r.0 {
                Some(x) => t == Some(x@),
                None => t is None,
            }
        }),
{
    let c = s[i];
    if c == '&' {
        let (d, p) = char_ref_exec(s, i);
        (Some(Token::Character(d)), p)
    } else if c != '<' || s.len() - i <= 1 {
        (Some(Token::Character(c)), i + 1)
    } else {
        let n = s[i + 1];
        if n == '!' {
            let (t, p) = markup_decl_exec(s, i + 2);
            (Some(t), p)
        } else if n == '/' {
            if s.len() - i <= 2 {
                (Some(Token::Character('<')), i + 1)
            } else if is_alpha_exec(s[i + 2]) {
                let (t, p) = tag_token_exec(s, i + 2, TagKind::End);
                (Some(t), p)
            } else if s[i + 2] == '>' {
                (None, i + 3)
            } else {
                let (t, p) = bogus_comment_exec(s, i + 2);
                (Some(t), p)
            }
        } else if is_alpha_exec(n) {
            let (t, p) = tag_token_exec(s, i + 1, TagKind::Start);
            (Some(t), p)
        } else if n == '?' {
            let (t, p) = bogus_comment_exec(s, i + 1);
            (Some(t), p)
        } else {
            (Some(Token::Character('<')), i + 1)
        }
    }
}

fn is_appropriate_end_exec(s: &Vec<char>, i: usize, last: &Vec<char>) -> (r: bool)
    requires
        i < s.len(),
    ensures
        r == is_appropriate_end(s@, i as int, last@),
{
    let n = last.len();
    if n == 0 || s.len() - i <= 2 || s.len() - i - 2 <= n {
        return false;
    }
    if s[i] != '<' || s[i + 1] != '/' {
        return false;
    }
    let name = lower_range(s, i + 2, i + 2 + n);
    if !chars_eq(&name, last) {
        return false;
    }
    stops_exec(Stop::TagName, s[i + 2 + n])
}

// ─────────────────────────── tokenizer ───────────────────────────

/// The HTML tokenizer over a fixed input.
pub struct HtmlTokenizer {
    input: Vec<char>,
    pos: usize,
    state: LexState,
    last_start_tag: Vec<char>,
    done: bool,
}

impl View for HtmlTokenizer {
    type V = TokenizerModel;

    closed spec fn view(&self) -> TokenizerModel {
        TokenizerModel {
            input: self.input@,
            pos: self.pos as int,
            state: self.state,
            last_start_tag: self.last_start_tag@,
            done: self.done,
        }
    }
}

impl HtmlTokenizer {
    /// Well-formedness: the position never passes the end of the input.
    pub open spec fn wf(&self) -> bool {
        self@.pos <= self@.input.len()
    }

    /// A tokenizer at the start of `input`, in the data state.
    pub fn new(input: &str) -> (t: Self)
        ensures
            t.wf(),
            t@ == (TokenizerModel {
                input: input@,
                pos: 0,
                state: LexState::Data,
                last_start_tag: Seq::empty(),
                done: false,
            }),
    {
        HtmlTokenizer {
            input: str_to_chars(input),
            pos: 0,
            state: LexState::Data,
            last_start_tag: Vec::new(),
            done: false,
        }
    }

    /// A tokenizer over an input given as characters.
    pub fn from_chars(input: Vec<char>) -> (t: Self)
        ensures
            t.wf(),
            t@ == (TokenizerModel {
                input: input@,
                pos: 0,
                state: LexState::Data,
                last_start_tag: Seq::empty(),
                done: false,
            }),
    {
        HtmlTokenizer { input, pos: 0, state: LexState::Data, last_start_tag: Vec::new(), done: false }
    }

    /// Switches the content model (set by the tree construction stage).
    pub fn set_state(&mut self, state: LexState)
        requires
            old(self).wf(),
        ensures
            final(self).wf(),
            final(self)@ == (TokenizerModel { state, ..old(self)@ }),
    {
        self.state = state;
    }

    /// Emits the next token; `None` once the EOF token has been emitted.
    pub fn next_token(&mut self) -> (r: Option<Token>)
        requires
            old(self).wf(),
        ensures
            final(self).wf(),
            ({
                let (t, m) = tokenizer_step(old(self)@);
                final(self)@ == m && match r {
                    Some(x) => t == Some(x@),
                    None => t is None,
                }
            }),
    {
        if self.done {
            return None;
        }
        let (tok, p) = self.next_at();
        if let Token::Tag(tag) = &tok {
            if tag.kind == TagKind::Start {
                self.last_start_tag = copy_range(&tag.name, 0, tag.name.len());
                assert(tag.name@.subrange(0, tag.name@.len() as int) == tag.name@);
            }
        }
        self.pos = p;
        if let Token::Tag(_) = &tok {
            self.state = LexState::Data;
        }
        self.done = match tok {
            Token::EOF => true,
            _ => false,
        };
        Some(tok)
    }

    fn next_at(&self) -> (r: (Token, usize))
        requires
            self.wf(),
        ensures
            (r.0@, r.1 as int) == spec_next_token(
                self.input@,
                self.pos as int,
                self.state,
                self.last_start_tag@,
            ),
            r.1 <= self.input.len(),
    {
        let s = &self.input;
        let mut i = self.pos;
        let ghost st = self.state;
        let ghost last = self.last_start_tag@;
        loop
            invariant
                s == &self.input,
                self.pos <= i <= s.len(),
                st == self.state,
                last == self.last_start_tag@,
                spec_next_token(s@, self.pos as int, st, last) == spec_next_token(
                    s@,
                    i as int,
                    st,
                    last,
                ),
            decreases s.len() - i,
        {
            if i >= s.len() {
                return (Token::EOF, s.len());
            }
            match self.state {
                LexState::Data => {
                    let (t, p) = data_step_exec(s, i);
                    proof {
                        lemma_data_step_bounds(s@, i as int);
                    }
                    match t {
                        Some(t) => {
                            return (t, p);
                        },
                        None => {
                            i = p;
                        },
                    }
                },
                LexState::RcData => {
                    if is_appropriate_end_exec(s, i, &self.last_start_tag) {
                        let r = tag_token_exec(s, i + 2, TagKind::End);
                        proof {
                            lemma_tag_token_bounds(s@, i + 2, TagKind::End);
                        }
                        return r;
                    } else if s[i] == '&' {
                        let (d, p) = char_ref_exec(s, i);
                        return (Token::Character(d), p);
                    } else {
                        return (Token::Character(s[i]), i + 1);
                    }
                },
                LexState::RawText => {
                    if is_appropriate_end_exec(s, i, &self.last_start_tag) {
                        let r = tag_token_exec(s, i + 2, TagKind::End);
                        proof {
                            lemma_tag_token_bounds(s@, i + 2, TagKind::End);
                        }
                        return r;
                    } else {
                        return (Token::Character(s[i]), i + 1);
                    }
                },
                LexState::PlainText => {
                    return (Token::Character(s[i]), i + 1);
                },
            }
        }
    }
}

pub proof fn lemma_tag_token_bounds(s: Seq<char>, k: int, kind: TagKind)
    requires
        0 <= k <= s.len(),
    ensures
        tag_token(s, k, kind).1 <= s.len(),
        tag_token(s, k, kind).1 > k || tag_token(s, k, kind).1 == s.len(),
{
    lemma_scan_bounds(s, k, Stop::TagName);
    let e = scan(s, k, Stop::TagName);
    if e < s.len() {
        lemma_attr_loop_bounds(s, e, Seq::empty());
    }
}

pub proof fn lemma_data_step_bounds(s: Seq<char>, i: int)
    requires
        0 <= i < s.len(),
    ensures
        i < data_step(s, i).1 <= s.len(),
{
    let c = s[i];
    reveal_strlit("--");
    reveal_strlit("doctype");
    if c == '&' {
        lemma_named_ref_bounds(s, i + 1);
        let hex = i + 2 < s.len() && (s[i + 2] == 'x' || s[i + 2] == 'X');
        let d0 = if hex { i + 3 } else { i + 2 };
        if i + 1 < s.len() && s[i + 1] == '#' {
            lemma_scan_bounds(s, d0, if hex { Stop::NotHex } else { Stop::NotDec });
        }
    } else if c != '<' || i + 1 >= s.len() {
    } else {
        let n = s[i + 1];
        if n == '!' {
            let j = i + 2;
            if occurs_at(s, j, "--"@) {
                lemma_find_comment_end_bounds(s, j + 2);
            } else if occurs_at_ci(s, j, "doctype"@) {
                lemma_doctype_bounds(s, j + 7);
            } else {
                lemma_scan_bounds(s, j, Stop::Gt);
            }
        } else if n == '/' {
            if i + 2 >= s.len() {
            } else if is_ascii_alpha(s[i + 2]) {
                lemma_tag_token_bounds(s, i + 2, TagKind::End);
            } else if s[i + 2] == '>' {
            } else {
                lemma_scan_bounds(s, i + 2, Stop::Gt);
            }
        } else if is_ascii_alpha(n) {
            lemma_tag_token_bounds(s, i + 1, TagKind::Start);
        } else if n == '?' {
            lemma_scan_bounds(s, i + 1, Stop::Gt);
        } else {
        }
    }
}

pub proof fn lemma_doctype_bounds(s: Seq<char>, k: int)
    requires
        0 <= k <= s.len(),
    ensures
        k <= doctype_token(s, k).1 <= s.len(),
{
    lemma_skip_ws_bounds(s, k);
    let a = skip_ws(s, k);
    if a < s.len() && s[a] != '>' {
        lemma_scan_bounds(s, a, Stop::Unquoted);
        let ne = scan(s, a, Stop::Unquoted);
        lemma_skip_ws_bounds(s, ne);
        let b = skip_ws(s, ne);
        reveal_strlit("public");
        reveal_strlit("system");
        if occurs_at_ci(s, b, "public"@) {
            lemma_skip_ws_bounds(s, b + 6);
            let c1 = skip_ws(s, b + 6);
            lemma_quoted_bounds(s, c1);
            let p1 = quoted_id(s, c1).1;
            lemma_skip_ws_bounds(s, p1);
            let c2 = skip_ws(s, p1);
            lemma_quoted_bounds(s, c2);
            lemma_scan_bounds(s, quoted_id(s, c2).1, Stop::Gt);
        } else if occurs_at_ci(s, b, "system"@) {
            lemma_skip_ws_bounds(s, b + 6);
            let c1 = skip_ws(s, b + 6);
            lemma_quoted_bounds(s, c1);
            lemma_scan_bounds(s, quoted_id(s, c1).1, Stop::Gt);
        } else {
            lemma_scan_bounds(s, b, Stop::Gt);
        }
    }
}

pub proof fn lemma_quoted_bounds(s: Seq<char>, c: int)
    requires
        0 <= c <= s.len(),
    ensures
        c <= quoted_id(s, c).1 <= s.len(),
{
    if 0 <= c < s.len() && (s[c] == '"' || s[c] == '\'') {
        lemma_scan_bounds(s, c + 1, Stop::QuoteOrGt(s[c]));
    }
}

pub proof fn lemma_char_ref_bounds(s: Seq<char>, i: int)
    requires
        0 <= i < s.len(),
    ensures
        i < char_ref(s, i).1 <= s.len(),
{
    lemma_named_ref_bounds(s, i + 1);
    let hex = i + 2 < s.len() && (s[i + 2] == 'x' || s[i + 2] == 'X');
    let d0 = if hex { i + 3 } else { i + 2 };
    if i + 1 < s.len() && s[i + 1] == '#' {
        lemma_scan_bounds(s, d0, if hex { Stop::NotHex } else { Stop::NotDec });
    }
}

/// Every token but EOF consumes input: the position after it is past `i`
/// and within the input.
pub proof fn lemma_next_token_progress(s: Seq<char>, i: int, st: LexState, last: Seq<char>)
    requires
        0 <= i <= s.len(),
    ensures
        spec_next_token(s, i, st, last).1 <= s.len(),
        spec_next_token(s, i, st, last).1 > i || spec_next_token(s, i, st, last).0 is EOF,
    decreases s.len() - i,
{
    if i < s.len() {
        match st {
            LexState::Data => {
                lemma_data_step_bounds(s, i);
                let (t, p) = data_step(s, i);
                if t is None {
                    lemma_next_token_progress(s, p, st, last);
                }
            },
            LexState::RcData => {
                if is_appropriate_end(s, i, last) {
                    lemma_tag_token_bounds(s, i + 2, TagKind::End);
                } else if s[i] == '&' {
                    lemma_char_ref_bounds(s, i);
                }
            },
            LexState::RawText => {
                if is_appropriate_end(s, i, last) {
                    lemma_tag_token_bounds(s, i + 2, TagKind::End);
                }
            },
            LexState::PlainText => {},
        }
    }
}

/// Tag names come out lower case (§13.2.5.8: upper-case ASCII letters of a
/// tag name are lowered).
pub proof fn lemma_tag_names_lower(s: Seq<char>, i: int, st: LexState, last: Seq<char>)
    requires
        0 <= i <= s.len(),
    ensures
        spec_next_token(s, i, st, last).0 matches SpecToken::Tag(g) ==> no_ascii_upper(g.name),
    decreases s.len() - i,
{
    if i < s.len() {
        match st {
            LexState::Data => {
                lemma_data_step_bounds(s, i);
                let (t, p) = data_step(s, i);
                if t is None {
                    lemma_tag_names_lower(s, p, st, last);
                } else {
                    if i + 2 <= s.len() {
                        lemma_lower_seq_no_upper(s.subrange(i + 2, scan(s, i + 2, Stop::TagName)));
                    }
                    if i + 1 <= s.len() {
                        lemma_lower_seq_no_upper(s.subrange(i + 1, scan(s, i + 1, Stop::TagName)));
                    }
                }
            },
            LexState::RcData | LexState::RawText => {
                if i + 2 <= s.len() {
                    lemma_lower_seq_no_upper(s.subrange(i + 2, scan(s, i + 2, Stop::TagName)));
                }
            },
            LexState::PlainText => {},
        }
    }
}

} // verus!
