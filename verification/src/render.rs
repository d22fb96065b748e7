//! Paint command vocabulary shared with the renderer.
use vstd::prelude::*;
use crate::text::{eq_ignore_ascii_case, eq_ci_str, lower_seq, str_to_chars};

verus! {

/// Horizontal alignment of CSS `text-align`.
#[derive(Debug, Clone, Copy, PartialEq, Eq, Structural, Default)]
pub enum TextAlign {
    /// `left`, `start`, and the default.
    #[default]
    Left,
    /// `center`.
    Center,
    /// `right`, `end`.
    Right,
}

/// The CSS `border-style` keywords (CSS Backgrounds and Borders 3 §4.2).
///
/// `none` and `hidden` paint nothing (§4.1: both have a used width of 0).
/// The other styles are painted, for now all as solid lines.
#[derive(Debug, Clone, Copy, PartialEq, Eq, Structural, Default)]
pub enum BorderStyle {
    /// `none`: not painted (the default).
    #[default]
    NoBorder,
    /// `hidden`: not painted.
    Hidden,
    /// `solid`.
    Solid,
    /// `dashed` (painted as solid).
    Dashed,
    /// `dotted` (painted as solid).
    Dotted,
    /// `double` (painted as solid).
    Double,
    /// `groove` (painted as solid).
    Groove,
    /// `ridge` (painted as solid).
    Ridge,
    /// `inset` (painted as solid).
    Inset,
    /// `outset` (painted as solid).
    Outset,
}

impl BorderStyle {
    /// Whether the style draws a visible border: every style but `none` and
    /// `hidden`.
    pub fn is_painted(self) -> (b: bool)
        ensures
            b == !(self == BorderStyle::NoBorder || self == BorderStyle::Hidden),
    {
        match self {
            BorderStyle::NoBorder | BorderStyle::Hidden => false,
            _ => true,
        }
    }
}

/// The `text-align` keyword to a horizontal alignment: `center` centres,
/// `right` and `end` align right, anything else (`left`, `start`,
/// `justify`, unknown keywords, no keyword) aligns left. Keywords ignore
/// ASCII case.
pub open spec fn text_align_of(kw: Option<Seq<char>>) -> TextAlign {
    match kw {
        Some(k) => if eq_ignore_ascii_case(k, "center"@) {
            TextAlign::Center
        } else if eq_ignore_ascii_case(k, "right"@) || eq_ignore_ascii_case(k, "end"@) {
            TextAlign::Right
        } else {
            TextAlign::Left
        },
        None => TextAlign::Left,
    }
}

/// The horizontal alignment for the computed `text-align` keyword of an
/// element (`None` when it has none).
pub fn resolve_text_align(keyword: Option<&str>) -> (a: TextAlign)
    ensures
        a == text_align_of(match keyword {
            Some(k) => Some(k@),
            None => None,
        }),
{
    match keyword {
        Some(k) => {
            let v = str_to_chars(k);
            if eq_ci_str(&v, "center") {
                TextAlign::Center
            } else if eq_ci_str(&v, "right") || eq_ci_str(&v, "end") {
                TextAlign::Right
            } else {
                TextAlign::Left
            }
        },
        None => TextAlign::Left,
    }
}

/// The `border-style` (or `outline-style`) keyword to a style, ignoring
/// ASCII case; an unknown keyword gives the initial value, no border.
pub open spec fn border_style_of(kw: Seq<char>) -> BorderStyle {
    if eq_ignore_ascii_case(kw, "hidden"@) {
        BorderStyle::Hidden
    } else if eq_ignore_ascii_case(kw, "solid"@) {
        BorderStyle::Solid
    } else if eq_ignore_ascii_case(kw, "dashed"@) {
        BorderStyle::Dashed
    } else if eq_ignore_ascii_case(kw, "dotted"@) {
        BorderStyle::Dotted
    } else if eq_ignore_ascii_case(kw, "double"@) {
        BorderStyle::Double
    } else if eq_ignore_ascii_case(kw, "groove"@) {
        BorderStyle::Groove
    } else if eq_ignore_ascii_case(kw, "ridge"@) {
        BorderStyle::Ridge
    } else if eq_ignore_ascii_case(kw, "inset"@) {
        BorderStyle::Inset
    } else if eq_ignore_ascii_case(kw, "outset"@) {
        BorderStyle::Outset
    } else {
        BorderStyle::NoBorder
    }
}

/// The CSS `border-style` keywords, numbered: `none`, `hidden`, `solid`,
/// `dashed`, `dotted`, `double`, `groove`, `ridge`, `inset`, `outset`.
pub open spec fn border_keyword(i: int) -> Seq<char> {
    if i == 0 {
        "none"@
    } else if i == 1 {
        "hidden"@
    } else if i == 2 {
        "solid"@
    } else if i == 3 {
        "dashed"@
    } else if i == 4 {
        "dotted"@
    } else if i == 5 {
        "double"@
    } else if i == 6 {
        "groove"@
    } else if i == 7 {
        "ridge"@
    } else if i == 8 {
        "inset"@
    } else {
        "outset"@
    }
}

/// A style draws a visible border.
pub open spec fn painted(b: BorderStyle) -> bool {
    !(b == BorderStyle::NoBorder || b == BorderStyle::Hidden)
}

proof fn lemma_keyword_lower(i: int)
    ensures
        lower_seq(border_keyword(i)) == border_keyword(i),
{
    reveal_strlit("none");
    reveal_strlit("hidden");
    reveal_strlit("solid");
    reveal_strlit("dashed");
    reveal_strlit("dotted");
    reveal_strlit("double");
    reveal_strlit("groove");
    reveal_strlit("ridge");
    reveal_strlit("inset");
    reveal_strlit("outset");
    crate::text::lemma_lower_seq_id(border_keyword(i));
}

/// Two keywords of the list are equal ignoring case only when they are the
/// same keyword.
proof fn lemma_keywords_differ(i: int, j: int)
    requires
        0 <= i < 10,
        0 <= j < 10,
    ensures
        eq_ignore_ascii_case(border_keyword(i), border_keyword(j)) == (i == j),
{
    reveal_strlit("none");
    reveal_strlit("hidden");
    reveal_strlit("solid");
    reveal_strlit("dashed");
    reveal_strlit("dotted");
    reveal_strlit("double");
    reveal_strlit("groove");
    reveal_strlit("ridge");
    reveal_strlit("inset");
    reveal_strlit("outset");
    lemma_keyword_lower(i);
    lemma_keyword_lower(j);
    let a = border_keyword(i);
    let b = border_keyword(j);
    if i != j && a.len() == b.len() {
        if a[0] != b[0] {
            assert(a[0] != b[0]);
        } else if a[1] != b[1] {
            assert(a[1] != b[1]);
        } else {
            assert(a[2] != b[2]);
        }
    }
}

/// Each of the ten keywords maps to its own style, any ASCII case: two
/// keywords give the same style only when they are the same keyword, and
/// every keyword but `none` and `hidden` gives a painted style.
pub proof fn lemma_border_keywords_distinct(i: int, j: int, a: Seq<char>, b: Seq<char>)
    requires
        0 <= i < 10,
        0 <= j < 10,
        eq_ignore_ascii_case(a, border_keyword(i)),
        eq_ignore_ascii_case(b, border_keyword(j)),
    ensures
        (border_style_of(a) == border_style_of(b)) == (i == j),
        painted(border_style_of(a)) == (i >= 2),
{
    reveal_strlit("none");
    reveal_strlit("hidden");
    reveal_strlit("solid");
    reveal_strlit("dashed");
    reveal_strlit("dotted");
    reveal_strlit("double");
    reveal_strlit("groove");
    reveal_strlit("ridge");
    reveal_strlit("inset");
    reveal_strlit("outset");
    assert forall|k: int| 0 <= k < 10 implies #[trigger] eq_ignore_ascii_case(a, border_keyword(k))
        == (i == k) && eq_ignore_ascii_case(b, border_keyword(k)) == (j == k) by {
        lemma_keywords_differ(i, k);
        lemma_keywords_differ(j, k);
    }
    assert(eq_ignore_ascii_case(a, border_keyword(1)) == (i == 1));
    assert(eq_ignore_ascii_case(a, border_keyword(2)) == (i == 2));
    assert(eq_ignore_ascii_case(a, border_keyword(3)) == (i == 3));
    assert(eq_ignore_ascii_case(a, border_keyword(4)) == (i == 4));
    assert(eq_ignore_ascii_case(a, border_keyword(5)) == (i == 5));
    assert(eq_ignore_ascii_case(a, border_keyword(6)) == (i == 6));
    assert(eq_ignore_ascii_case(a, border_keyword(7)) == (i == 7));
    assert(eq_ignore_ascii_case(a, border_keyword(8)) == (i == 8));
    assert(eq_ignore_ascii_case(a, border_keyword(9)) == (i == 9));
    assert(eq_ignore_ascii_case(b, border_keyword(1)) == (j == 1));
    assert(eq_ignore_ascii_case(b, border_keyword(2)) == (j == 2));
    assert(eq_ignore_ascii_case(b, border_keyword(3)) == (j == 3));
    assert(eq_ignore_ascii_case(b, border_keyword(4)) == (j == 4));
    assert(eq_ignore_ascii_case(b, border_keyword(5)) == (j == 5));
    assert(eq_ignore_ascii_case(b, border_keyword(6)) == (j == 6));
    assert(eq_ignore_ascii_case(b, border_keyword(7)) == (j == 7));
    assert(eq_ignore_ascii_case(b, border_keyword(8)) == (j == 8));
    assert(eq_ignore_ascii_case(b, border_keyword(9)) == (j == 9));
}

/// Keywords are matched ignoring ASCII case.
pub proof fn lemma_border_style_ignores_case(a: Seq<char>, b: Seq<char>)
    requires
        eq_ignore_ascii_case(a, b),
    ensures
        border_style_of(a) == border_style_of(b),
{
}

/// Parses a `border-style` or `outline-style` keyword (the full set of CSS
/// Backgrounds and Borders 3 §4.2); `none` and unknown keywords give
/// [`BorderStyle::NoBorder`], as an invalid value falls back to the initial
/// one.
pub fn parse_border_style(kw: &str) -> (b: BorderStyle)
    ensures
        b == border_style_of(kw@),
{
    let v = str_to_chars(kw);
    if eq_ci_str(&v, "hidden") {
        BorderStyle::Hidden
    } else if eq_ci_str(&v, "solid") {
        BorderStyle::Solid
    } else if eq_ci_str(&v, "dashed") {
        BorderStyle::Dashed
    } else if eq_ci_str(&v, "dotted") {
        BorderStyle::Dotted
    } else if eq_ci_str(&v, "double") {
        BorderStyle::Double
    } else if eq_ci_str(&v, "groove") {
        BorderStyle::Groove
    } else if eq_ci_str(&v, "ridge") {
        BorderStyle::Ridge
    } else if eq_ci_str(&v, "inset") {
        BorderStyle::Inset
    } else if eq_ci_str(&v, "outset") {
        BorderStyle::Outset
    } else {
        BorderStyle::NoBorder
    }
}

} // verus!
