//! The pure parts of the browser window: pixel format conversion for the
//! window surface, and the built-in pages for new tabs and unsupported
//! schemes.
use vstd::prelude::*;
use crate::navigation::{escape, push_decimal, decimal};
use crate::text::{chars_to_string, push_str, str_to_chars};

verus! {

/// The `0x00RRGGBB` value of the pixel at `i` of RGBA8 data.
pub open spec fn pixel_0rgb(data: Seq<u8>, i: int) -> u32 {
    (data[4 * i] * 65536 + data[4 * i + 1] * 256 + data[4 * i + 2]) as u32
}

/// RGBA8 pixels to the `0x00RRGGBB` words of a window surface (red in bits
/// 16 to 23, alpha dropped), row-major; a trailing partial pixel is ignored.
pub fn rgba_to_0rgb(data: &[u8]) -> (out: Vec<u32>)
    ensures
        out@.len() == data@.len() / 4,
        forall|i: int| 0 <= i < out@.len() ==> #[trigger] out@[i] == pixel_0rgb(data@, i),
{
    let n = data.len() / 4;
    let mut out: Vec<u32> = Vec::new();
    let mut i: usize = 0;
    let mut j: usize = 0;
    while i < n
        invariant
            n == data@.len() / 4,
            i <= n,
            j == 4 * i,
            out@.len() == i,
            forall|k: int| 0 <= k < i ==> #[trigger] out@[k] == pixel_0rgb(data@, k),
        decreases n - i,
    {
        assert(j + 3 < data@.len()) by (nonlinear_arith)
            requires
                i < n,
                j == 4 * i,
                n == data@.len() / 4,
        ;
        let r = data[j];
        let g = data[j + 1];
        let b = data[j + 2];
        let w = ((r as u32) << 16) | ((g as u32) << 8) | (b as u32);
        assert(w == (r as u32) * 65536 + (g as u32) * 256 + (b as u32)) by (bit_vector)
            requires
                w == ((r as u32) << 16) | ((g as u32) << 8) | (b as u32),
        ;
        out.push(w);
        i = i + 1;
        j = j + 4;
    }
    out
}

/// The content of a new tab: a large "Tab N".
pub open spec fn new_tab_content_model(n: nat) -> Seq<char> {
    "<!doctype html><html><body><h1 style=\"font-size:72px;color:#1a1a1a\">Tab "@ + decimal(n)
        + "</h1></body></html>"@
}

/// The content of the tab opened as number `n`.
pub fn new_tab_content(n: usize) -> (s: String)
    ensures
        s@ == new_tab_content_model(n as nat),
{
    let mut out: Vec<char> = Vec::new();
    push_str(&mut out, "<!doctype html><html><body><h1 style=\"font-size:72px;color:#1a1a1a\">Tab ");
    push_decimal(&mut out, n);
    push_str(&mut out, "</h1></body></html>");
    chars_to_string(&out)
}

/// The placeholder page for a scheme that is not supported: the URL,
/// escaped, and a note.
pub open spec fn url_placeholder_page_model(url: Seq<char>) -> Seq<char> {
    "<!doctype html><html><body><h1 style=\"font-size:40px\">"@ + escape(url)
        + "</h1><p style=\"font-size:16px\">Scheme not supported (http/https/file are). URL submitted via address bar.</p></body></html>"@
}

/// The placeholder page shown for `url` when its scheme is not supported
/// (http, https and file are navigated).
pub fn url_placeholder_page(url: &str) -> (s: String)
    ensures
        s@ == url_placeholder_page_model(url@),
{
    let mut out: Vec<char> = Vec::new();
    push_str(&mut out, "<!doctype html><html><body><h1 style=\"font-size:40px\">");
    let escaped = crate::navigation::escape_html(url);
    let e = str_to_chars(escaped.as_str());
    crate::text::push_chars(&mut out, &e);
    push_str(
        &mut out,
        "</h1><p style=\"font-size:16px\">Scheme not supported (http/https/file are). URL submitted via address bar.</p></body></html>",
    );
    chars_to_string(&out)
}

} // verus!
