//! Address-bar navigation: URL classification, response to page document,
//! and the pages shown for errors and unsupported content.
//!
//! A minimal subset of navigation (HTML §7.2): top-level document GET only,
//! no history, no subresources, no MIME sniffing.
//!
//! 1. [`classify_url`] sorts what was typed: `http`/`https` are fetched,
//!    `file://` and absolute local paths are loaded from disk, a missing
//!    scheme is completed (`http://` for localhost and 127.0.0.1, `https://`
//!    otherwise), and the other schemes are not supported.
//! 2. [`document_from_response`] turns a response into a page by its
//!    Content-Type: `text/html` (or none) is rendered with its `<style>`
//!    blocks as author CSS, `text/plain` is shown in a `<pre>`, anything else
//!    gets a notice page. 4xx/5xx bodies are rendered like any other; only a
//!    network error yields an [`error_page`].
use vstd::prelude::*;
use crate::network::{NetworkResponse, ResponseModel, header_value, utf8_lossy};
use crate::text::{
    chars_to_string, contains_seq, contains_str, eq_ignore_ascii_case,
    is_ascii_alpha, is_ascii_digit, lower_seq, match_at, match_at_ci, occurs_at_ci,
    push_chars, push_str, starts_with, str_to_chars,
};

verus! {

// ───────────────────────────── types ─────────────────────────────

/// The page document made from a fetched response.
#[derive(Debug)]
pub struct NavigationDoc {
    /// The final URL (after redirects); the tab title uses it.
    pub final_url: String,
    /// The page HTML.
    pub html: String,
    /// The author CSS extracted from the page (its `<style>` blocks).
    pub css: String,
}

/// Mathematical model of a page document.
pub struct DocModel {
    pub final_url: Seq<char>,
    pub html: Seq<char>,
    pub css: Seq<char>,
}

impl View for NavigationDoc {
    type V = DocModel;

    open spec fn view(&self) -> DocModel {
        DocModel { final_url: self.final_url@, html: self.html@, css: self.css@ }
    }
}

/// The result of one navigation, handed back to the window layer.
#[derive(Debug)]
pub struct NavigationOutcome {
    /// The tab that started the navigation (index when submitted).
    pub tab: usize,
    /// The navigation generation of that tab when submitted; a result whose
    /// generation no longer matches the tab's is stale and dropped.
    pub epoch: u64,
    /// The requested URL (for the error page and the title on failure).
    pub url: String,
    /// The page document, or the network error message.
    pub result: Result<NavigationDoc, String>,
}

/// Mathematical model of a navigation result.
pub struct OutcomeModel {
    pub tab: usize,
    pub epoch: u64,
    pub url: Seq<char>,
    pub result: Result<DocModel, Seq<char>>,
}

impl View for NavigationOutcome {
    type V = OutcomeModel;

    open spec fn view(&self) -> OutcomeModel {
        OutcomeModel {
            tab: self.tab,
            epoch: self.epoch,
            url: self.url@,
            result: match &self.result {
                Ok(d) => Ok(d@),
                Err(m) => Err(m@),
            },
        }
    }
}

/// How an address-bar input is navigated.
#[derive(Debug, PartialEq, Eq)]
pub enum NavigationKind {
    /// An http/https top-level document navigation (normalised URL).
    Http(String),
    /// A local file (the path, with `file://` removed).
    File(String),
    /// A scheme that is not supported (`data:`, `about:`, ...) or an empty
    /// input.
    Unsupported(String),
}

/// Mathematical model of a navigation kind.
pub enum KindModel {
    Http(Seq<char>),
    File(Seq<char>),
    Unsupported(Seq<char>),
}

impl View for NavigationKind {
    type V = KindModel;

    open spec fn view(&self) -> KindModel {
        match self {
            NavigationKind::Http(s) => KindModel::Http(s@),
            NavigationKind::File(s) => KindModel::File(s@),
            NavigationKind::Unsupported(s) => KindModel::Unsupported(s@),
        }
    }
}

// ───────────────────────────── HTML escaping ─────────────────────────────

/// The escape of one character: `&`, `<` and `>` become entities.
pub open spec fn escape_char(c: char) -> Seq<char> {
    if c == '&' {
        "&amp;"@
    } else if c == '<' {
        "&lt;"@
    } else if c == '>' {
        "&gt;"@
    } else {
        seq![c]
    }
}

/// `s` with `&`, `<` and `>` escaped.
pub open spec fn escape(s: Seq<char>) -> Seq<char>
    decreases s.len(),
{
    if s.len() == 0 {
        Seq::empty()
    } else {
        escape(s.drop_last()) + escape_char(s.last())
    }
}

/// No `<` or `>` in `s`.
pub open spec fn no_angle_brackets(s: Seq<char>) -> bool {
    forall|i: int| 0 <= i < s.len() ==> #[trigger] s[i] != '<' && s[i] != '>'
}

/// Escaped text holds no `<` or `>`: it cannot open or close markup.
pub proof fn lemma_escape_no_markup(s: Seq<char>)
    ensures
        no_angle_brackets(escape(s)),
    decreases s.len(),
{
    reveal_strlit("&amp;");
    reveal_strlit("&lt;");
    reveal_strlit("&gt;");
    if s.len() > 0 {
        lemma_escape_no_markup(s.drop_last());
        let a = escape(s.drop_last());
        let b = escape_char(s.last());
        assert forall|i: int| 0 <= i < (a + b).len() implies #[trigger] (a + b)[i] != '<' && (a
            + b)[i] != '>' by {
            if i < a.len() {
                assert((a + b)[i] == a[i]);
            } else {
                assert((a + b)[i] == b[i - a.len()]);
            }
        }
    }
}

/// Text without `&`, `<` and `>` is its own escape.
pub proof fn lemma_escape_plain(s: Seq<char>)
    requires
        forall|i: int| 0 <= i < s.len() ==> #[trigger] s[i] != '&' && s[i] != '<' && s[i] != '>',
    ensures
        escape(s) == s,
    decreases s.len(),
{
    if s.len() > 0 {
        let d = s.drop_last();
        assert forall|i: int| 0 <= i < d.len() implies #[trigger] d[i] != '&' && d[i] != '<' && d[i]
            != '>' by {
            assert(d[i] == s[i]);
        }
        lemma_escape_plain(d);
        assert(s =~= d.push(s.last()));
        assert(escape_char(s.last()) =~= seq![s.last()]);
    }
}

/// Escaping distributes over concatenation.
pub proof fn lemma_escape_concat(a: Seq<char>, b: Seq<char>)
    ensures
        escape(a + b) == escape(a) + escape(b),
    decreases b.len(),
{
    if b.len() == 0 {
        assert(a + b =~= a);
        assert(escape(a) + escape(b) =~= escape(a));
    } else {
        let b0 = b.drop_last();
        lemma_escape_concat(a, b0);
        assert((a + b).drop_last() =~= a + b0);
        assert((a + b).last() == b.last());
        assert(escape(a) + escape(b) =~= escape(a) + escape(b0) + escape_char(b.last()));
    }
}

/// Appends the escape of `s` to `out`.
fn push_escaped(out: &mut Vec<char>, s: &Vec<char>)
    ensures
        final(out)@ == old(out)@ + escape(s@),
{
    let mut i: usize = 0;
    while i < s.len()
        invariant
            i <= s.len(),
            out@ == old(out)@ + escape(s@.subrange(0, i as int)),
        decreases s.len() - i,
    {
        let c = s[i];
        proof {
            assert(s@.subrange(0, i + 1).drop_last() =~= s@.subrange(0, i as int));
        }
        if c == '&' {
            push_str(out, "&amp;");
        } else if c == '<' {
            push_str(out, "&lt;");
        } else if c == '>' {
            push_str(out, "&gt;");
        } else {
            out.push(c);
            proof {
                assert(escape_char(c) =~= seq![c]);
            }
        }
        proof {
            assert(out@ =~= old(out)@ + escape(s@.subrange(0, i + 1)));
        }
        i = i + 1;
    }
    proof {
        assert(s@.subrange(0, s@.len() as int) =~= s@);
    }
}

/// Escapes `&`, `<` and `>`: the minimal protection for a URL, an error
/// message or plain text put into HTML.
pub fn escape_html(s: &str) -> (r: String)
    ensures
        r@ == escape(s@),
{
    let v = str_to_chars(s);
    let mut out: Vec<char> = Vec::new();
    push_escaped(&mut out, &v);
    proof {
        assert(out@ =~= escape(s@));
    }
    chars_to_string(&out)
}

// ───────────────────────────── pages ─────────────────────────────

/// The network error page (DNS, connection, TLS, timeout, size limit: the
/// document could not be loaded, as opposed to an HTTP error status).
pub open spec fn error_page_model(url: Seq<char>, message: Seq<char>) -> Seq<char> {
    "<!doctype html><html><body><h1 style=\"font-size:32px;color:#1a1a1a\">Navigation failed</h1><p style=\"font-size:16px\">"@
        + escape(url) + "</p><p style=\"font-size:14px\">"@ + escape(message)
        + "</p></body></html>"@
}

/// A plain text body shown in a `<pre>`.
pub open spec fn plain_text_page_model(text: Seq<char>) -> Seq<char> {
    "<!doctype html><html><body><pre style=\"font-size:14px\">"@ + escape(text)
        + "</pre></body></html>"@
}

/// The decimal digit with value `d`.
pub open spec fn digit_char(d: nat) -> char {
    ((48 + d) as u32) as char
}

/// The decimal representation of `n`.
pub open spec fn decimal(n: nat) -> Seq<char>
    decreases n,
{
    if n < 10 {
        seq![digit_char(n)]
    } else {
        decimal(n / 10).push(digit_char(n % 10))
    }
}

/// The notice page for a Content-Type that is not rendered.
pub open spec fn unsupported_type_page_model(ct: Seq<char>, len: nat) -> Seq<char> {
    "<!doctype html><html><body><h1 style=\"font-size:32px;color:#1a1a1a\">Unsupported content</h1><p style=\"font-size:16px\">Content-Type: "@
        + escape(ct) + " ("@ + decimal(len)
        + " bytes)</p><p style=\"font-size:14px\">MusKitty renders text/html and text/plain only.</p></body></html>"@
}

fn digit(d: usize) -> (c: char)
    requires
        d < 10,
    ensures
        c == digit_char(d as nat),
{
    match d {
        0 => '0',
        1 => '1',
        2 => '2',
        3 => '3',
        4 => '4',
        5 => '5',
        6 => '6',
        7 => '7',
        8 => '8',
        _ => '9',
    }
}

/// Appends the decimal representation of `n` to `out`.
pub fn push_decimal(out: &mut Vec<char>, n: usize)
    ensures
        final(out)@ == old(out)@ + decimal(n as nat),
    decreases n,
{
    if n >= 10 {
        push_decimal(out, n / 10);
    }
    out.push(digit(n % 10));
    proof {
        if n >= 10 {
            assert(final(out)@ =~= old(out)@ + decimal(n as nat));
        } else {
            assert(out@ =~= old(out)@ + decimal(n as nat));
        }
    }
}

/// The network error page for `url` and `message`, both escaped.
pub fn error_page(url: &str, message: &str) -> (r: String)
    ensures
        r@ == error_page_model(url@, message@),
{
    let mut out: Vec<char> = Vec::new();
    push_str(
        &mut out,
        "<!doctype html><html><body><h1 style=\"font-size:32px;color:#1a1a1a\">Navigation failed</h1><p style=\"font-size:16px\">",
    );
    push_escaped(&mut out, &str_to_chars(url));
    push_str(&mut out, "</p><p style=\"font-size:14px\">");
    push_escaped(&mut out, &str_to_chars(message));
    push_str(&mut out, "</p></body></html>");
    chars_to_string(&out)
}

/// A plain text body, escaped, in a `<pre>`.
fn plain_text_page(text: &Vec<char>) -> (r: Vec<char>)
    ensures
        r@ == plain_text_page_model(text@),
{
    let mut out: Vec<char> = Vec::new();
    push_str(&mut out, "<!doctype html><html><body><pre style=\"font-size:14px\">");
    push_escaped(&mut out, text);
    push_str(&mut out, "</pre></body></html>");
    out
}

/// The notice page for an unsupported Content-Type `ct` and a body of `len`
/// bytes.
fn unsupported_type_page(ct: &Vec<char>, len: usize) -> (r: Vec<char>)
    ensures
        r@ == unsupported_type_page_model(ct@, len as nat),
{
    let mut out: Vec<char> = Vec::new();
    push_str(
        &mut out,
        "<!doctype html><html><body><h1 style=\"font-size:32px;color:#1a1a1a\">Unsupported content</h1><p style=\"font-size:16px\">Content-Type: ",
    );
    push_escaped(&mut out, ct);
    push_str(&mut out, " (");
    push_decimal(&mut out, len);
    push_str(
        &mut out,
        " bytes)</p><p style=\"font-size:14px\">MusKitty renders text/html and text/plain only.</p></body></html>",
    );
    out
}

// ───────────────────────────── URL classification ─────────────────────────────

/// Unicode White_Space, the characters that `str::trim` removes.
pub open spec fn is_white_space(c: char) -> bool {
    ('\t' <= c && c <= '\r') || c == ' ' || c == '\u{85}' || c == '\u{A0}' || c == '\u{1680}'
        || ('\u{2000}' <= c && c <= '\u{200A}') || c == '\u{2028}' || c == '\u{2029}' || c
        == '\u{202F}' || c == '\u{205F}' || c == '\u{3000}'
}

/// The first index from `i` on that is not white space.
pub open spec fn trim_start(s: Seq<char>, i: int) -> int
    decreases s.len() - i,
{
    if 0 <= i < s.len() && is_white_space(s[i]) {
        trim_start(s, i + 1)
    } else {
        i
    }
}

/// The end of `s[lo..j]` once trailing white space is removed.
pub open spec fn trim_end(s: Seq<char>, j: int, lo: int) -> int
    decreases j - lo,
{
    if lo < j && j <= s.len() && is_white_space(s[j - 1]) {
        trim_end(s, j - 1, lo)
    } else {
        j
    }
}

/// `s` without leading and trailing white space.
pub open spec fn trim(s: Seq<char>) -> Seq<char> {
    let a = trim_start(s, 0);
    s.subrange(a, trim_end(s, s.len() as int, a))
}

/// The first index from `i` on holding `c`, or the length.
pub open spec fn find_char(s: Seq<char>, i: int, c: char) -> int
    decreases s.len() - i,
{
    if i < 0 || i >= s.len() {
        s.len() as int
    } else if s[i] == c {
        i
    } else {
        find_char(s, i + 1, c)
    }
}

/// The first index from `i` on holding `/`, `?` or `#`, or the length.
pub open spec fn find_authority_end(s: Seq<char>, i: int) -> int
    decreases s.len() - i,
{
    if i < 0 || i >= s.len() {
        s.len() as int
    } else if s[i] == '/' || s[i] == '?' || s[i] == '#' {
        i
    } else {
        find_authority_end(s, i + 1)
    }
}

/// The last index below `j` holding `c`.
pub open spec fn rfind_char(s: Seq<char>, j: int, c: char) -> Option<int>
    decreases j,
{
    if j <= 0 || j > s.len() {
        None
    } else if s[j - 1] == c {
        Some(j - 1)
    } else {
        rfind_char(s, j - 1, c)
    }
}

/// A character allowed in a URL scheme after the first.
pub open spec fn scheme_char(c: char) -> bool {
    is_ascii_alpha(c) || is_ascii_digit(c) || c == '+' || c == '-' || c == '.'
}

/// The scheme that `s` starts with (URL Standard scheme syntax: a letter,
/// then letters, digits, `+`, `-` or `.`, then `:`), lower-cased.
pub open spec fn scheme_of(s: Seq<char>) -> Option<Seq<char>> {
    let e = find_char(s, 0, ':');
    let sc = s.subrange(0, e);
    if e >= s.len() || sc.len() == 0 || !is_ascii_alpha(sc[0]) {
        None
    } else if forall|k: int| 0 <= k < sc.len() ==> #[trigger] scheme_char(sc[k]) {
        Some(lower_seq(sc))
    } else {
        None
    }
}

/// The schemes recognised as not http (http, https and file are handled
/// before): they are not supported. Any other `x:` prefix is taken for a
/// `host:port`.
pub open spec fn non_http_scheme(sc: Seq<char>) -> bool {
    sc == "data"@ || sc == "about"@ || sc == "javascript"@ || sc == "mailto"@ || sc == "ftp"@
        || sc == "ws"@ || sc == "wss"@ || sc == "blob"@
}

/// The host of an input without scheme: the authority (up to the first `/`,
/// `?` or `#`), without user info (up to the last `@`) and port.
pub open spec fn input_host(s: Seq<char>) -> Seq<char> {
    let auth = s.subrange(0, find_authority_end(s, 0));
    let host0 = match rfind_char(auth, auth.len() as int, '@') {
        Some(k) => auth.subrange(k + 1, auth.len() as int),
        None => auth,
    };
    host0.subrange(0, find_char(host0, 0, ':'))
}

/// The input names this machine: its host is `localhost` (any case) or
/// `127.0.0.1`.
pub open spec fn local_host_input(s: Seq<char>) -> bool {
    let h = input_host(s);
    eq_ignore_ascii_case(h, "localhost"@) || h == "127.0.0.1"@
}

/// The path of a `file://` URL: `/D:/x` loses its first `/` (a drive
/// letter path: the third byte is `:`, so the second character is a single
/// byte), other paths are kept.
pub open spec fn file_path(rest: Seq<char>) -> Seq<char> {
    if rest.len() >= 3 && rest[0] == '/' && rest[1] < '\u{80}' && rest[2] == ':' {
        rest.subrange(1, rest.len() as int)
    } else {
        rest
    }
}

/// An absolute local path: a drive letter path `D:...` or a Unix path.
pub open spec fn local_path(t: Seq<char>) -> bool {
    (t.len() >= 3 && is_ascii_alpha(t[0]) && t[1] == ':') || t[0] == '/'
}

/// How an address-bar input is navigated.
pub open spec fn classify(input: Seq<char>) -> KindModel {
    let t = trim(input);
    let lt = lower_seq(t);
    if t.len() == 0 {
        KindModel::Unsupported(t)
    } else if starts_with(lt, "http://"@) || starts_with(lt, "https://"@) {
        KindModel::Http(t)
    } else if starts_with(t, "file://"@) {
        KindModel::File(file_path(t.subrange(7, t.len() as int)))
    } else if local_path(t) {
        KindModel::File(t)
    } else if scheme_of(t) matches Some(sc) && non_http_scheme(sc) {
        KindModel::Unsupported(t)
    } else if local_host_input(t) {
        KindModel::Http("http://"@ + t)
    } else {
        KindModel::Http("https://"@ + t)
    }
}

pub proof fn lemma_trim_start_bounds(s: Seq<char>, i: int)
    requires
        0 <= i <= s.len(),
    ensures
        i <= trim_start(s, i) <= s.len(),
        trim_start(s, i) < s.len() ==> !is_white_space(s[trim_start(s, i)]),
        forall|k: int| i <= k < trim_start(s, i) ==> is_white_space(#[trigger] s[k]),
    decreases s.len() - i,
{
    if i < s.len() && is_white_space(s[i]) {
        lemma_trim_start_bounds(s, i + 1);
    }
}

pub proof fn lemma_trim_end_bounds(s: Seq<char>, j: int, lo: int)
    requires
        0 <= lo <= j <= s.len(),
    ensures
        lo <= trim_end(s, j, lo) <= j,
        trim_end(s, j, lo) > lo ==> !is_white_space(s[trim_end(s, j, lo) - 1]),
    decreases j - lo,
{
    if lo < j && is_white_space(s[j - 1]) {
        lemma_trim_end_bounds(s, j - 1, lo);
    }
}

/// A trimmed sequence: empty, or neither starts nor ends with white space.
pub open spec fn is_trimmed(t: Seq<char>) -> bool {
    t.len() == 0 || (!is_white_space(t[0]) && !is_white_space(t.last()))
}

/// Trimming gives a trimmed sequence, and leaves one as it is.
pub proof fn lemma_trim(s: Seq<char>)
    ensures
        is_trimmed(trim(s)),
        is_trimmed(s) ==> trim(s) == s,
{
    lemma_trim_start_bounds(s, 0);
    let a = trim_start(s, 0);
    lemma_trim_end_bounds(s, s.len() as int, a);
    if is_trimmed(s) && s.len() > 0 {
        assert(a == 0);
        assert(trim_end(s, s.len() as int, 0) == s.len());
        assert(trim(s) =~= s);
    }
}

fn is_white_space_exec(c: char) -> (r: bool)
    ensures
        r == is_white_space(c),
{
    ('\t' <= c && c <= '\r') || c == ' ' || c == '\u{85}' || c == '\u{A0}' || c == '\u{1680}'
        || ('\u{2000}' <= c && c <= '\u{200A}') || c == '\u{2028}' || c == '\u{2029}' || c
        == '\u{202F}' || c == '\u{205F}' || c == '\u{3000}'
}

/// `str::trim` on characters: leading and trailing white space removed.
fn trim_chars(v: &Vec<char>) -> (r: Vec<char>)
    ensures
        r@ == trim(v@),
{
    let n = v.len();
    let mut a: usize = 0;
    while a < n && is_white_space_exec(v[a])
        invariant
            n == v@.len(),
            a <= n,
            trim_start(v@, 0) == trim_start(v@, a as int),
        decreases n - a,
    {
        a = a + 1;
    }
    let mut b: usize = n;
    while b > a && is_white_space_exec(v[b - 1])
        invariant
            n == v@.len(),
            a <= b <= n,
            trim_start(v@, 0) == a,
            trim_end(v@, n as int, a as int) == trim_end(v@, b as int, a as int),
        decreases b,
    {
        b = b - 1;
    }
    crate::text::copy_range(v, a, b)
}

fn find_char_exec(v: &Vec<char>, i: usize, c: char) -> (r: usize)
    requires
        i <= v.len(),
    ensures
        r as int == find_char(v@, i as int, c),
        i <= r <= v.len(),
{
    let mut k = i;
    while k < v.len() && v[k] != c
        invariant
            i <= k <= v.len(),
            find_char(v@, i as int, c) == find_char(v@, k as int, c),
        decreases v.len() - k,
    {
        k = k + 1;
    }
    k
}

fn find_authority_end_exec(v: &Vec<char>) -> (r: usize)
    ensures
        r as int == find_authority_end(v@, 0),
        r <= v.len(),
{
    let mut k: usize = 0;
    while k < v.len() && !(v[k] == '/' || v[k] == '?' || v[k] == '#')
        invariant
            k <= v.len(),
            find_authority_end(v@, 0) == find_authority_end(v@, k as int),
        decreases v.len() - k,
    {
        k = k + 1;
    }
    k
}

fn rfind_char_exec(v: &Vec<char>, c: char) -> (r: Option<usize>)
    ensures
        match r {
            Some(k) => rfind_char(v@, v@.len() as int, c) == Some(k as int) && k < v.len(),
            None => rfind_char(v@, v@.len() as int, c) is None,
        },
{
    let mut j = v.len();
    while j > 0 && v[j - 1] != c
        invariant
            j <= v.len(),
            rfind_char(v@, v@.len() as int, c) == rfind_char(v@, j as int, c),
        decreases j,
    {
        j = j - 1;
    }
    if j == 0 {
        None
    } else {
        Some(j - 1)
    }
}

fn is_scheme_char(c: char) -> (r: bool)
    ensures
        r == scheme_char(c),
{
    ('a' <= c && c <= 'z') || ('A' <= c && c <= 'Z') || ('0' <= c && c <= '9') || c == '+' || c
        == '-' || c == '.'
}

fn leading_scheme(v: &Vec<char>) -> (r: Option<Vec<char>>)
    ensures
        match r {
            Some(sc) => scheme_of(v@) == Some(sc@),
            None => scheme_of(v@) is None,
        },
{
    let e = find_char_exec(v, 0, ':');
    if e >= v.len() || e == 0 {
        return None;
    }
    let ghost scheme = v@.subrange(0, e as int);
    let first = v[0];
    assert(scheme[0] == first);
    if !(('a' <= first && first <= 'z') || ('A' <= first && first <= 'Z')) {
        return None;
    }
    let mut k: usize = 0;
    while k < e
        invariant
            0 < e < v.len(),
            find_char(v@, 0, ':') == e,
            scheme == v@.subrange(0, e as int),
            is_ascii_alpha(scheme[0]),
            k <= e,
            forall|m: int| 0 <= m < k ==> #[trigger] scheme_char(scheme[m]),
        decreases e - k,
    {
        if !is_scheme_char(v[k]) {
            assert(scheme[k as int] == v@[k as int]);
            assert(!scheme_char(scheme[k as int]));
            return None;
        }
        k = k + 1;
    }
    Some(crate::text::lower_range(v, 0, e))
}

fn non_http_scheme_exec(sc: &Vec<char>) -> (r: bool)
    ensures
        r == non_http_scheme(sc@),
{
    crate::text::eq_str(sc, "data") || crate::text::eq_str(sc, "about") || crate::text::eq_str(
        sc,
        "javascript",
    ) || crate::text::eq_str(sc, "mailto") || crate::text::eq_str(sc, "ftp")
        || crate::text::eq_str(sc, "ws") || crate::text::eq_str(sc, "wss") || crate::text::eq_str(
        sc,
        "blob",
    )
}

fn is_local_host(v: &Vec<char>) -> (r: bool)
    ensures
        r == local_host_input(v@),
{
    let end = find_authority_end_exec(v);
    let auth = crate::text::copy_range(v, 0, end);
    let host0 = match rfind_char_exec(&auth, '@') {
        Some(k) => crate::text::copy_range(&auth, k + 1, auth.len()),
        None => auth,
    };
    let colon = find_char_exec(&host0, 0, ':');
    let host = crate::text::copy_range(&host0, 0, colon);
    crate::text::eq_ci_str(&host, "localhost") || crate::text::eq_str(&host, "127.0.0.1")
}

/// Sorts an address-bar input into a navigation.
///
/// - Already `http://` or `https://` (any case): navigated as is.
/// - `file://` or an absolute local path (`D:\x`, `/x`): loaded from disk.
/// - A scheme on the list of non-http schemes (`data:`, `about:`, ...): not
///   supported. The list, rather than the scheme syntax, decides, since
///   `example.com:8080` is a `host:port` that the syntax would take for a
///   scheme.
/// - No scheme: `http://` is added for localhost and 127.0.0.1 (local
///   development servers rarely have certificates), `https://` otherwise.
///
/// The input is trimmed of white space first; an empty input is not
/// supported.
pub fn classify_url(input: &str) -> (k: NavigationKind)
    ensures
        k@ == classify(input@),
{
    let v = str_to_chars(input);
    let t = trim_chars(&v);
    proof {
        reveal_strlit("http://");
        reveal_strlit("https://");
        reveal_strlit("file://");
    }
    if t.len() == 0 {
        return NavigationKind::Unsupported(chars_to_string(&t));
    }
    if match_at_ci(&t, 0, "http://") || match_at_ci(&t, 0, "https://") {
        proof {
            assert(lower_seq(t@.subrange(0, 7)) =~= lower_seq(t@).subrange(0, 7));
            if t@.len() >= 8 {
                assert(lower_seq(t@.subrange(0, 8)) =~= lower_seq(t@).subrange(0, 8));
            }
            lemma_lower_literal_http();
        }
        return NavigationKind::Http(chars_to_string(&t));
    }
    proof {
        lemma_lower_literal_http();
        if starts_with(lower_seq(t@), "http://"@) {
            assert(lower_seq(t@.subrange(0, 7)) =~= lower_seq(t@).subrange(0, 7));
        }
        if starts_with(lower_seq(t@), "https://"@) {
            assert(lower_seq(t@.subrange(0, 8)) =~= lower_seq(t@).subrange(0, 8));
        }
    }
    if match_at(&t, 0, "file://") {
        let n = t.len();
        let path = if n - 7 >= 3 && t[7] == '/' && t[8] < '\u{80}' && t[9] == ':' {
            crate::text::copy_range(&t, 8, n)
        } else {
            crate::text::copy_range(&t, 7, n)
        };
        proof {
            let rest = t@.subrange(7, n as int);
            if rest.len() >= 3 && rest[0] == '/' && rest[1] < '\u{80}' && rest[2] == ':' {
                assert(path@ =~= rest.subrange(1, rest.len() as int));
            } else {
                assert(path@ =~= rest);
            }
        }
        return NavigationKind::File(chars_to_string(&path));
    }
    let drive = t.len() >= 3 && (('a' <= t[0] && t[0] <= 'z') || ('A' <= t[0] && t[0] <= 'Z'))
        && t[1] == ':';
    if drive || t[0] == '/' {
        return NavigationKind::File(chars_to_string(&t));
    }
    let unsupported = match leading_scheme(&t) {
        Some(sc) => non_http_scheme_exec(&sc),
        None => false,
    };
    if unsupported {
        return NavigationKind::Unsupported(chars_to_string(&t));
    }
    let mut url: Vec<char> = Vec::new();
    if is_local_host(&t) {
        push_str(&mut url, "http://");
    } else {
        push_str(&mut url, "https://");
    }
    push_chars(&mut url, &t);
    NavigationKind::Http(chars_to_string(&url))
}

/// The scheme prefixes are lower case already.
proof fn lemma_lower_literal_http()
    ensures
        lower_seq("http://"@) == "http://"@,
        lower_seq("https://"@) == "https://"@,
{
    reveal_strlit("http://");
    reveal_strlit("https://");
    crate::text::lemma_lower_seq_id("http://"@);
    crate::text::lemma_lower_seq_id("https://"@);
}

// ───────────────────────────── style extraction ─────────────────────────────

/// A character that ends a tag name: white space, `/` or `>`.
pub open spec fn tag_name_end(c: char) -> bool {
    c == '\t' || c == '\n' || c == '\x0C' || c == '\r' || c == ' ' || c == '/' || c == '>'
}

/// A `<style` start tag opens at `i` (tag names ignore ASCII case).
pub open spec fn style_open_at(s: Seq<char>, i: int) -> bool {
    occurs_at_ci(s, i, "<style"@) && i + 6 < s.len() && tag_name_end(s[i + 6])
}

/// The first index from `i` on where `lit` occurs (ignoring ASCII case), or
/// the length.
pub open spec fn find_ci(s: Seq<char>, i: int, lit: Seq<char>) -> int
    decreases s.len() - i,
{
    if i < 0 || i >= s.len() {
        s.len() as int
    } else if occurs_at_ci(s, i, lit) {
        i
    } else {
        find_ci(s, i + 1, lit)
    }
}

pub proof fn lemma_find_char_bounds(s: Seq<char>, i: int, c: char)
    requires
        0 <= i,
    ensures
        i <= s.len() ==> i <= find_char(s, i, c) <= s.len(),
        find_char(s, i, c) < s.len() ==> s[find_char(s, i, c)] == c,
    decreases s.len() - i,
{
    if 0 <= i < s.len() && s[i] != c {
        lemma_find_char_bounds(s, i + 1, c);
    }
}

pub proof fn lemma_find_ci_bounds(s: Seq<char>, i: int, lit: Seq<char>)
    requires
        0 <= i,
    ensures
        i <= s.len() ==> i <= find_ci(s, i, lit) <= s.len(),
    decreases s.len() - i,
{
    if 0 <= i < s.len() && !occurs_at_ci(s, i, lit) {
        lemma_find_ci_bounds(s, i + 1, lit);
    }
}

/// The contents of the `<style>` elements of `s` from position `i` on, each
/// followed by a line feed: from the `>` that ends a `<style` start tag to
/// the next `</style` (or the end of the text).
pub open spec fn styles_from(s: Seq<char>, i: int) -> Seq<char>
    decreases s.len() - i,
{
    if i < 0 || i >= s.len() {
        Seq::empty()
    } else if style_open_at(s, i) {
        let gt = find_char(s, i + 6, '>');
        if gt >= s.len() {
            Seq::empty()
        } else {
            let close = find_ci(s, gt + 1, "</style"@);
            proof {
                lemma_find_char_bounds(s, i + 6, '>');
                lemma_find_ci_bounds(s, gt + 1, "</style"@);
            }
            let rest = if close + 7 < s.len() {
                styles_from(s, close + 7)
            } else {
                Seq::empty()
            };
            s.subrange(gt + 1, close) + seq!['\n'] + rest
        }
    } else {
        styles_from(s, i + 1)
    }
}

fn find_ci_exec(v: &Vec<char>, i: usize, lit: &str) -> (r: usize)
    requires
        i <= v.len(),
    ensures
        r as int == find_ci(v@, i as int, lit@),
        i <= r <= v.len(),
{
    let mut k = i;
    while k < v.len() && !match_at_ci(v, k, lit)
        invariant
            i <= k <= v.len(),
            find_ci(v@, i as int, lit@) == find_ci(v@, k as int, lit@),
        decreases v.len() - k,
    {
        k = k + 1;
    }
    k
}

/// The author CSS of a page: the contents of its `<style>` elements in
/// document order, each followed by a line feed.
pub fn extract_inline_style(html: &str) -> (css: String)
    ensures
        css@ == styles_from(html@, 0),
{
    let s = str_to_chars(html);
    let n = s.len();
    let mut out: Vec<char> = Vec::new();
    let mut i: usize = 0;
    proof {
        reveal_strlit("<style");
        reveal_strlit("</style");
    }
    while i < n
        invariant_except_break
            out@ + styles_from(s@, i as int) == styles_from(s@, 0),
        invariant
            n == s@.len(),
            s@ == html@,
        ensures
            out@ == styles_from(s@, 0),
        decreases n - i,
    {
        let open = match_at_ci(&s, i, "<style") && n - i > 6 && {
            let c = s[i + 6];
            c == '\t' || c == '\n' || c == '\x0C' || c == '\r' || c == ' ' || c == '/' || c == '>'
        };
        if open {
            let gt = find_char_exec(&s, i + 6, '>');
            proof {
                lemma_find_char_bounds(s@, i + 6, '>');
            }
            if gt >= n {
                proof {
                    assert(out@ + Seq::<char>::empty() =~= out@);
                    assert(out@ == styles_from(s@, 0));
                }
                break ;
            }
            let close = find_ci_exec(&s, gt + 1, "</style");
            let ghost before = out@;
            let mut k = gt + 1;
            proof {
                assert(out@ =~= before + s@.subrange(gt + 1, k as int));
            }
            while k < close
                invariant
                    gt + 1 <= k <= close <= n,
                    n == s@.len(),
                    out@ == before + s@.subrange(gt + 1, k as int),
                decreases close - k,
            {
                out.push(s[k]);
                proof {
                    assert(s@.subrange(gt + 1, k + 1) =~= s@.subrange(gt + 1, k as int).push(
                        s@[k as int],
                    ));
                }
                k = k + 1;
            }
            out.push('\n');
            proof {
                assert(out@ =~= before + (s@.subrange(gt + 1, close as int) + seq!['\n']));
            }
            if n - close <= 7 {
                proof {
                    assert(styles_from(s@, i as int) =~= s@.subrange(gt + 1, close as int) + seq!['\n']);
                    assert(out@ == styles_from(s@, 0));
                }
                break ;
            }
            proof {
                assert(styles_from(s@, i as int) == s@.subrange(gt + 1, close as int) + seq!['\n']
                    + styles_from(s@, close + 7));
                assert(out@ + styles_from(s@, close + 7) =~= before + styles_from(s@, i as int));
            }
            i = close + 7;
        } else {
            i = i + 1;
        }
        proof {
            if i >= n {
                assert(out@ + Seq::<char>::empty() =~= out@);
            }
        }
    }
    chars_to_string(&out)
}

// ───────────────────────────── response to document ─────────────────────────────

/// The text of an optional value, empty when absent.
pub open spec fn text_or_empty(o: Option<Seq<char>>) -> Seq<char> {
    match o {
        Some(s) => s,
        None => Seq::empty(),
    }
}

/// The lower-cased Content-Type of a response, empty when absent.
pub open spec fn content_type(resp: ResponseModel) -> Seq<char> {
    lower_seq(text_or_empty(header_value(resp.headers, "content-type"@)))
}

/// The page document for a response whose body decodes to `text`, by
/// Content-Type: HTML (also when the type is missing) with its `<style>`
/// blocks as CSS, plain text in a `<pre>`, or the notice page. The status
/// is not looked at: an error status still renders its body.
pub open spec fn document_model(resp: ResponseModel, text: Seq<char>) -> DocModel {
    let ct = content_type(resp);
    if contains_seq(ct, "text/html"@) || ct.len() == 0 {
        DocModel { final_url: resp.url, html: text, css: styles_from(text, 0) }
    } else if contains_seq(ct, "text/plain"@) {
        DocModel { final_url: resp.url, html: plain_text_page_model(text), css: Seq::empty() }
    } else {
        DocModel {
            final_url: resp.url,
            html: unsupported_type_page_model(ct, resp.body.len()),
            css: Seq::empty(),
        }
    }
}

/// The page document for `resp`, given the text its body decodes to.
pub fn document_from_text(resp: &NetworkResponse, text: String) -> (d: NavigationDoc)
    ensures
        d@ == document_model(resp@, text@),
{
    let ct: Vec<char> = match resp.header("content-type") {
        Some(v) => crate::text::lower_vec(&str_to_chars(v)),
        None => Vec::new(),
    };
    proof {
        assert(ct@ == content_type(resp@)) by {
            if header_value(resp@.headers, "content-type"@) is None {
                assert(lower_seq(Seq::<char>::empty()) =~= Seq::<char>::empty());
            }
        }
    }
    let final_url = String::from_str(resp.final_url());
    if contains_str(&ct, "text/html") || ct.len() == 0 {
        let css = extract_inline_style(text.as_str());
        NavigationDoc { final_url, html: text, css }
    } else if contains_str(&ct, "text/plain") {
        let page = plain_text_page(&str_to_chars(text.as_str()));
        NavigationDoc { final_url, html: chars_to_string(&page), css: String::new() }
    } else {
        let page = unsupported_type_page(&ct, resp.body_bytes().len());
        NavigationDoc { final_url, html: chars_to_string(&page), css: String::new() }
    }
}

/// The page document for a response, by its Content-Type (see
/// [`document_model`]); the body is decoded as UTF-8, invalid sequences
/// replaced.
pub fn document_from_response(resp: &NetworkResponse) -> (d: NavigationDoc)
    ensures
        d@ == document_model(resp@, utf8_lossy(resp@.body)),
{
    let text = resp.text();
    document_from_text(resp, text)
}

// ───────────────────────────── laws of classification ─────────────────────────────

/// Surrounding white space does not change how an input is navigated.
pub proof fn lemma_classify_ignores_white_space(input: Seq<char>)
    ensures
        classify(input) == classify(trim(input)),
{
    lemma_trim(input);
    lemma_trim(trim(input));
}

/// The URL that an http navigation goes to is classified as itself: the
/// normalisation of an input is a fixed point.
pub proof fn lemma_classify_http_fixed_point(input: Seq<char>)
    ensures
        classify(input) matches KindModel::Http(u) ==> classify(u) == KindModel::Http(u),
{
    reveal_strlit("http://");
    reveal_strlit("https://");
    lemma_trim(input);
    lemma_lower_literal_http();
    let t = trim(input);
    let lt = lower_seq(t);
    if t.len() == 0 {
    } else if starts_with(lt, "http://"@) || starts_with(lt, "https://"@) {
        lemma_trim(t);
    } else if starts_with(t, "file://"@) {
    } else if local_path(t) {
    } else if scheme_of(t) matches Some(sc) && non_http_scheme(sc) {
    } else {
        let p: Seq<char> = if local_host_input(t) {
            "http://"@
        } else {
            "https://"@
        };
        let u = p + t;
        assert(u[0] == 'h');
        assert(u.last() == t.last());
        lemma_trim(u);
        assert(lower_seq(u) =~= lower_seq(p) + lower_seq(t));
        assert(lower_seq(u).subrange(0, p.len() as int) =~= p);
        if local_host_input(t) {
            assert(starts_with(lower_seq(u), "http://"@));
        } else {
            assert(starts_with(lower_seq(u), "https://"@));
        }
    }
}

/// The status code plays no part in the document: a server error page is
/// rendered like any other body.
pub proof fn lemma_document_ignores_status(resp: ResponseModel, status: u16, text: Seq<char>)
    ensures
        document_model(ResponseModel { status, ..resp }, text) == document_model(resp, text),
{
}

// ───────────────────────────── more laws of escaping and pages ─────────────────────────────

/// `s` with the entities `&amp;`, `&lt;` and `&gt;` read back as the
/// characters they stand for, from left to right.
pub open spec fn unescape(s: Seq<char>) -> Seq<char>
    decreases s.len(),
{
    if s.len() == 0 {
        Seq::empty()
    } else {
        proof {
            reveal_strlit("&amp;");
            reveal_strlit("&lt;");
            reveal_strlit("&gt;");
        }
        if starts_with(s, "&amp;"@) {
            seq!['&'] + unescape(s.subrange(5, s.len() as int))
        } else if starts_with(s, "&lt;"@) {
            seq!['<'] + unescape(s.subrange(4, s.len() as int))
        } else if starts_with(s, "&gt;"@) {
            seq!['>'] + unescape(s.subrange(4, s.len() as int))
        } else {
            seq![s[0]] + unescape(s.subrange(1, s.len() as int))
        }
    }
}

/// `s` does not start with `lit` when they differ at index `i`.
proof fn lemma_not_starts_with(s: Seq<char>, lit: Seq<char>, i: int)
    requires
        0 <= i < lit.len(),
        i < s.len(),
        s[i] != lit[i],
    ensures
        !starts_with(s, lit),
{
    if starts_with(s, lit) {
        assert(s.subrange(0, lit.len() as int)[i] == s[i]);
    }
}

/// The escape of a single character is the escape of that character.
proof fn lemma_escape_one(c: char)
    ensures
        escape(seq![c]) == escape_char(c),
{
    let one = seq![c];
    assert(one.drop_last() =~= Seq::<char>::empty());
    assert(one.last() == c);
    assert(escape(Seq::<char>::empty()) == Seq::<char>::empty());
    assert(Seq::<char>::empty() + escape_char(c) =~= escape_char(c));
}

/// Escaping loses nothing: reading the entities back gives the text.
pub proof fn lemma_escape_lossless(s: Seq<char>)
    ensures
        unescape(escape(s)) == s,
    decreases s.len(),
{
    reveal_strlit("&amp;");
    reveal_strlit("&lt;");
    reveal_strlit("&gt;");
    if s.len() == 0 {
        assert(escape(s) =~= Seq::<char>::empty());
        assert(unescape(escape(s)) =~= s);
    } else {
        let c = s[0];
        let rest = s.subrange(1, s.len() as int);
        assert(s =~= seq![c] + rest);
        lemma_escape_concat(seq![c], rest);
        lemma_escape_one(c);
        let e = escape(rest);
        let x = escape_char(c) + e;
        assert(escape(s) == x);
        lemma_escape_lossless(rest);
        let k = escape_char(c).len() as int;
        assert(x.subrange(k, x.len() as int) =~= e);
        if c == '&' {
            assert(x.subrange(0, 5) =~= "&amp;"@);
            assert(unescape(x) == seq!['&'] + unescape(e));
        } else if c == '<' {
            lemma_not_starts_with(x, "&amp;"@, 1);
            assert(x.subrange(0, 4) =~= "&lt;"@);
            assert(unescape(x) == seq!['<'] + unescape(e));
        } else if c == '>' {
            lemma_not_starts_with(x, "&amp;"@, 1);
            lemma_not_starts_with(x, "&lt;"@, 1);
            assert(x.subrange(0, 4) =~= "&gt;"@);
            assert(unescape(x) == seq!['>'] + unescape(e));
        } else {
            lemma_not_starts_with(x, "&amp;"@, 0);
            lemma_not_starts_with(x, "&lt;"@, 0);
            lemma_not_starts_with(x, "&gt;"@, 0);
            assert(unescape(x) == seq![c] + unescape(e));
        }
        assert(unescape(x) =~= s);
    }
}

/// The number of times `c` occurs in `s`.
pub open spec fn count_char(s: Seq<char>, c: char) -> nat
    decreases s.len(),
{
    if s.len() == 0 {
        0
    } else {
        count_char(s.drop_last(), c) + if s.last() == c {
            1nat
        } else {
            0nat
        }
    }
}

proof fn lemma_count_concat(a: Seq<char>, b: Seq<char>, c: char)
    ensures
        count_char(a + b, c) == count_char(a, c) + count_char(b, c),
    decreases b.len(),
{
    if b.len() == 0 {
        assert(a + b =~= a);
    } else {
        lemma_count_concat(a, b.drop_last(), c);
        assert((a + b).drop_last() =~= a + b.drop_last());
    }
}

/// A character that does not occur is counted zero times.
proof fn lemma_count_absent(s: Seq<char>, c: char)
    requires
        forall|i: int| 0 <= i < s.len() ==> #[trigger] s[i] != c,
    ensures
        count_char(s, c) == 0,
    decreases s.len(),
{
    if s.len() > 0 {
        assert(s.last() == s[s.len() - 1]);
        assert forall|i: int| 0 <= i < s.drop_last().len() implies #[trigger] s.drop_last()[i]
            != c by {
            assert(s.drop_last()[i] == s[i]);
        }
        lemma_count_absent(s.drop_last(), c);
    }
}

proof fn lemma_count_escaped(s: Seq<char>, c: char)
    requires
        c == '<' || c == '>',
    ensures
        count_char(escape(s), c) == 0,
{
    lemma_escape_no_markup(s);
    let e = escape(s);
    assert forall|i: int| 0 <= i < e.len() implies #[trigger] e[i] != c by {
        assert(e[i] != '<' && e[i] != '>');
    }
    lemma_count_absent(e, c);
}

/// The `<` and `>` of an error page are those of its fixed text.
proof fn lemma_error_page_count(url: Seq<char>, message: Seq<char>, c: char)
    requires
        c == '<' || c == '>',
    ensures
        count_char(error_page_model(url, message), c) == count_char(
            "<!doctype html><html><body><h1 style=\"font-size:32px;color:#1a1a1a\">Navigation failed</h1><p style=\"font-size:16px\">"@,
            c,
        ) + count_char("</p><p style=\"font-size:14px\">"@, c) + count_char(
            "</p></body></html>"@,
            c,
        ),
{
    let p0 = "<!doctype html><html><body><h1 style=\"font-size:32px;color:#1a1a1a\">Navigation failed</h1><p style=\"font-size:16px\">"@;
    let p1 = "</p><p style=\"font-size:14px\">"@;
    let p2 = "</p></body></html>"@;
    lemma_count_escaped(url, c);
    lemma_count_escaped(message, c);
    lemma_count_concat(p0, escape(url), c);
    lemma_count_concat(p0 + escape(url), p1, c);
    lemma_count_concat(p0 + escape(url) + p1, escape(message), c);
    lemma_count_concat(p0 + escape(url) + p1 + escape(message), p2, c);
}

/// The URL and message cannot add markup to an error page: any two error
/// pages hold the same number of `<` and of `>`.
pub proof fn lemma_error_page_markup_fixed(u1: Seq<char>, m1: Seq<char>, u2: Seq<char>, m2: Seq<char>)
    ensures
        count_char(error_page_model(u1, m1), '<') == count_char(error_page_model(u2, m2), '<'),
        count_char(error_page_model(u1, m1), '>') == count_char(error_page_model(u2, m2), '>'),
{
    lemma_error_page_count(u1, m1, '<');
    lemma_error_page_count(u2, m2, '<');
    lemma_error_page_count(u1, m1, '>');
    lemma_error_page_count(u2, m2, '>');
}

// ───────────────────────────── more laws of classification ─────────────────────────────

/// The forms a classification takes: an empty input (after trimming) and
/// only it is unsupported with an empty text; an http URL is the trimmed
/// input, possibly after `https://` or `http://`, and starts with one of
/// them in any case; an unsupported input is the trimmed input; a file
/// path ends the trimmed input.
pub proof fn lemma_classify_forms(input: Seq<char>)
    ensures
        ({
            let t = trim(input);
            &&& (classify(input) == KindModel::Unsupported(Seq::empty())) == (t.len() == 0)
            &&& classify(input) matches KindModel::Http(u) ==> (u == t || u == "https://"@ + t || u
                == "http://"@ + t) && (starts_with(lower_seq(u), "http://"@) || starts_with(
                lower_seq(u),
                "https://"@,
            ))
            &&& classify(input) matches KindModel::Unsupported(u) ==> u == t
            &&& classify(input) matches KindModel::File(p) ==> p.len() <= t.len() && p
                == t.subrange(t.len() - p.len(), t.len() as int)
        }),
{
    reveal_strlit("http://");
    reveal_strlit("https://");
    reveal_strlit("file://");
    lemma_lower_literal_http();
    let t = trim(input);
    if t.len() > 0 {
        assert(t.len() != Seq::<char>::empty().len());
    }
    if t.len() == 0 {
        assert(t =~= Seq::<char>::empty());
    } else if starts_with(lower_seq(t), "http://"@) || starts_with(lower_seq(t), "https://"@) {
    } else if starts_with(t, "file://"@) {
        let rest = t.subrange(7, t.len() as int);
        let p = file_path(rest);
        assert(p =~= t.subrange(t.len() - p.len(), t.len() as int));
    } else if local_path(t) {
        assert(t.subrange(0, t.len() as int) =~= t);
    } else if scheme_of(t) matches Some(sc) && non_http_scheme(sc) {
    } else {
        let p: Seq<char> = if local_host_input(t) {
            "http://"@
        } else {
            "https://"@
        };
        let u = p + t;
        assert(lower_seq(u) =~= lower_seq(p) + lower_seq(t));
        assert(lower_seq(u).subrange(0, p.len() as int) =~= p);
    }
}

/// The schemes on the list are lower-case letters, at least two, starting
/// neither with `h` nor with `fi`.
proof fn lemma_listed_scheme_shape(l: Seq<char>)
    requires
        non_http_scheme(l),
    ensures
        l.len() >= 2,
        forall|k: int| 0 <= k < l.len() ==> crate::text::is_ascii_lower(#[trigger] l[k]),
        l[0] != 'h',
        !(l[0] == 'f' && l[1] == 'i'),
{
    reveal_strlit("data");
    reveal_strlit("about");
    reveal_strlit("javascript");
    reveal_strlit("mailto");
    reveal_strlit("ftp");
    reveal_strlit("ws");
    reveal_strlit("wss");
    reveal_strlit("blob");
}

/// The characters of a non-http scheme on the list are letters, and the
/// scheme starts neither with `h` nor with `fi`.
proof fn lemma_scheme_letters(s: Seq<char>)
    requires
        non_http_scheme(lower_seq(s)),
    ensures
        s.len() >= 2,
        forall|k: int| 0 <= k < s.len() ==> is_ascii_alpha(#[trigger] s[k]),
        lower_seq(s)[0] != 'h',
        !(lower_seq(s)[0] == 'f' && lower_seq(s)[1] == 'i'),
{
    let l = lower_seq(s);
    lemma_listed_scheme_shape(l);
    assert(l.len() == s.len());
    assert forall|k: int| 0 <= k < s.len() implies is_ascii_alpha(#[trigger] s[k]) by {
        assert(l[k] == crate::text::lower_char(s[k]));
        assert(crate::text::is_ascii_lower(l[k]));
    }
}

proof fn lemma_find_char_at(t: Seq<char>, i: int, c: char, e: int)
    requires
        0 <= i <= e < t.len(),
        t[e] == c,
        forall|k: int| i <= k < e ==> #[trigger] t[k] != c,
    ensures
        find_char(t, i, c) == e,
    decreases e - i,
{
    if i < e {
        lemma_find_char_at(t, i + 1, c, e);
    }
}

/// Positions without `c` are skipped by the search for `c`.
proof fn lemma_find_char_skip(s: Seq<char>, i: int, j: int, c: char)
    requires
        0 <= i <= j <= s.len(),
        forall|k: int| i <= k < j ==> #[trigger] s[k] != c,
    ensures
        find_char(s, i, c) == find_char(s, j, c),
    decreases j - i,
{
    if i < j {
        lemma_find_char_skip(s, i + 1, j, c);
    }
}

/// The search for `c` from `i` ends at `i` or later.
proof fn lemma_find_char_from(s: Seq<char>, i: int, c: char)
    requires
        0 <= i <= s.len(),
    ensures
        i <= find_char(s, i, c) <= s.len(),
    decreases s.len() - i,
{
    if i < s.len() && s[i] != c {
        lemma_find_char_from(s, i + 1, c);
    }
}

/// The authority ends at the first `/`, `?` or `#`.
proof fn lemma_authority_end_at(s: Seq<char>, i: int, e: int)
    requires
        0 <= i <= e < s.len(),
        s[e] == '/' || s[e] == '?' || s[e] == '#',
        forall|k: int| i <= k < e ==> !(#[trigger] s[k] == '/' || s[k] == '?' || s[k] == '#'),
    ensures
        find_authority_end(s, i) == e,
    decreases e - i,
{
    if i < e {
        lemma_authority_end_at(s, i + 1, e);
    }
}

/// No `c` below `j`: the backward search finds nothing.
proof fn lemma_rfind_char_none(s: Seq<char>, j: int, c: char)
    requires
        0 <= j <= s.len(),
        forall|k: int| 0 <= k < j ==> #[trigger] s[k] != c,
    ensures
        rfind_char(s, j, c) is None,
    decreases j,
{
    if j > 0 {
        lemma_rfind_char_none(s, j - 1, c);
    }
}

/// An input without scheme whose host is `localhost` or `127.0.0.1` is
/// navigated over plain http, whatever path follows the host: the host
/// ends at the first `/`, so the path is never taken for part of it.
pub proof fn lemma_classify_local_host_path(h: Seq<char>, p: Seq<char>)
    requires
        h == "localhost"@ || h == "127.0.0.1"@,
        is_trimmed(h + "/"@ + p),
    ensures
        classify(h + "/"@ + p) == KindModel::Http("http://"@ + (h + "/"@ + p)),
{
    reveal_strlit("localhost");
    reveal_strlit("127.0.0.1");
    reveal_strlit("/");
    reveal_strlit("http://");
    reveal_strlit("https://");
    reveal_strlit("file://");
    let t = h + "/"@ + p;
    let n = h.len() as int;
    assert(n == 9);
    assert(t[n] == '/');
    assert(forall|k: int| 0 <= k < n ==> #[trigger] t[k] == h[k]);
    assert(forall|k: int|
        0 <= k < n ==> #[trigger] h[k] != ':' && h[k] != '@' && h[k] != '/' && h[k] != '?' && h[k]
            != '#');
    lemma_trim(t);
    assert(trim(t) == t);
    let lt = lower_seq(t);
    assert(lt[0] == crate::text::lower_char(t[0]));
    lemma_not_starts_with(lt, "http://"@, 0);
    lemma_not_starts_with(lt, "https://"@, 0);
    lemma_not_starts_with(t, "file://"@, 0);
    assert(!local_path(t));
    // no scheme: the first `:` (if any) lies after the `/`
    assert forall|k: int| 0 <= k < n + 1 implies #[trigger] t[k] != ':' by {
        if k < n {
            assert(t[k] == h[k]);
        }
    }
    lemma_find_char_skip(t, 0, n + 1, ':');
    lemma_find_char_from(t, n + 1, ':');
    let e = find_char(t, 0, ':');
    if e < t.len() {
        let sc = t.subrange(0, e);
        assert(sc[n] == '/');
        assert(!scheme_char(sc[n]));
    }
    assert(scheme_of(t) is None);
    // the host
    assert forall|k: int| 0 <= k < n implies !(#[trigger] t[k] == '/' || t[k] == '?' || t[k] == '#') by {
        assert(t[k] == h[k]);
    }
    lemma_authority_end_at(t, 0, n);
    let auth = t.subrange(0, n);
    assert(auth =~= h);
    lemma_rfind_char_none(h, n, '@');
    lemma_find_char_skip(h, 0, n, ':');
    assert(h.subrange(0, find_char(h, 0, ':')) =~= h);
    assert(input_host(t) == h);
    assert(local_host_input(t));
}

/// A plain-text response shows its whole body: the page is the `<pre>`
/// opening, then a part that holds no markup and reads back (entities
/// decoded) as exactly the decoded text, every line of it, then the
/// closing.
pub proof fn lemma_plain_text_page_shows_whole_text(resp: ResponseModel, text: Seq<char>)
    requires
        !contains_seq(content_type(resp), "text/html"@),
        content_type(resp).len() > 0,
        contains_seq(content_type(resp), "text/plain"@),
    ensures
        ({
            let h = document_model(resp, text).html;
            let open = "<!doctype html><html><body><pre style=\"font-size:14px\">"@;
            let close = "</pre></body></html>"@;
            let mid = h.subrange(open.len() as int, h.len() - close.len());
            &&& h.len() >= open.len() + close.len()
            &&& h.subrange(0, open.len() as int) == open
            &&& h.subrange(h.len() - close.len(), h.len() as int) == close
            &&& unescape(mid) == text
            &&& no_angle_brackets(mid)
        }),
{
    let open = "<!doctype html><html><body><pre style=\"font-size:14px\">"@;
    let close = "</pre></body></html>"@;
    let h = document_model(resp, text).html;
    let e = escape(text);
    assert(h == open + e + close);
    assert(h.subrange(0, open.len() as int) =~= open);
    assert(h.subrange(h.len() - close.len(), h.len() as int) =~= close);
    assert(h.subrange(open.len() as int, h.len() - close.len()) =~= e);
    lemma_escape_lossless(text);
    lemma_escape_no_markup(text);
}

/// A listed non-http scheme (any case) before a `:` makes the input
/// unsupported: the list, not the scheme syntax, decides.
pub proof fn lemma_classify_scheme_whitelist(input: Seq<char>, s: Seq<char>, r: Seq<char>)
    requires
        trim(input) == s + seq![':'] + r,
        non_http_scheme(lower_seq(s)),
    ensures
        classify(input) == KindModel::Unsupported(trim(input)),
{
    reveal_strlit("http://");
    reveal_strlit("https://");
    reveal_strlit("file://");
    lemma_scheme_letters(s);
    let t = trim(input);
    assert(t[0] == s[0] && t[1] == s[1] && t[s.len() as int] == ':');
    assert(lower_seq(t)[0] == lower_seq(s)[0]);
    assert(!starts_with(lower_seq(t), "http://"@)) by {
        if starts_with(lower_seq(t), "http://"@) {
            assert(lower_seq(t).subrange(0, 7)[0] == 'h');
        }
    }
    assert(!starts_with(lower_seq(t), "https://"@)) by {
        if starts_with(lower_seq(t), "https://"@) {
            assert(lower_seq(t).subrange(0, 8)[0] == 'h');
        }
    }
    assert(!starts_with(t, "file://"@)) by {
        if starts_with(t, "file://"@) {
            assert(t.subrange(0, 7)[0] == 'f' && t.subrange(0, 7)[1] == 'i');
            assert(lower_seq(s)[1] == crate::text::lower_char(s[1]));
        }
    }
    assert(!local_path(t)) by {
        assert(is_ascii_alpha(s[0]) && is_ascii_alpha(s[1]));
    }
    assert forall|k: int| 0 <= k < s.len() implies #[trigger] t[k] != ':' by {
        assert(t[k] == s[k]);
        assert(is_ascii_alpha(s[k]));
    }
    lemma_find_char_at(t, 0, ':', s.len() as int);
    assert(t.subrange(0, s.len() as int) =~= s);
    assert forall|k: int| 0 <= k < s.len() implies #[trigger] scheme_char(s[k]) by {
        assert(is_ascii_alpha(s[k]));
    }
}

} // verus!
