//! HTTP responses.
//!
//! A [`NetworkResponse`] is what a top-level document fetch hands back: the
//! status, the headers in the order received, the final URL and the body
//! bytes.
use vstd::prelude::*;
use crate::text::{eq_ci_str, eq_ignore_ascii_case, str_to_chars};

verus! {

/// Mathematical model of a response.
pub struct ResponseModel {
    pub status: u16,
    pub headers: Seq<(Seq<char>, Seq<char>)>,
    pub url: Seq<char>,
    pub body: Seq<u8>,
}

/// The headers as pairs of character sequences.
pub open spec fn headers_view(h: Seq<(String, String)>) -> Seq<(Seq<char>, Seq<char>)> {
    h.map_values(|p: (String, String)| (p.0@, p.1@))
}

/// The index of the first header from `k` on whose name equals `name`,
/// ignoring ASCII case.
pub open spec fn header_from(h: Seq<(Seq<char>, Seq<char>)>, name: Seq<char>, k: int) -> Option<int>
    decreases h.len() - k,
{
    if k < 0 || k >= h.len() {
        None
    } else if eq_ignore_ascii_case(h[k].0, name) {
        Some(k)
    } else {
        header_from(h, name, k + 1)
    }
}

/// The value of the first header named `name` (ignoring ASCII case).
pub open spec fn header_value(h: Seq<(Seq<char>, Seq<char>)>, name: Seq<char>) -> Option<Seq<char>> {
    match header_from(h, name, 0) {
        Some(k) => Some(h[k].1),
        None => None,
    }
}

/// Header lookup ignores the ASCII case of the name asked for.
pub proof fn lemma_header_case_insensitive(
    h: Seq<(Seq<char>, Seq<char>)>,
    n1: Seq<char>,
    n2: Seq<char>,
    k: int,
)
    requires
        eq_ignore_ascii_case(n1, n2),
    ensures
        header_from(h, n1, k) == header_from(h, n2, k),
    decreases h.len() - k,
{
    if 0 <= k < h.len() {
        lemma_header_case_insensitive(h, n1, n2, k + 1);
    }
}

/// What `String::from_utf8_lossy` makes of a byte sequence.
pub uninterp spec fn utf8_lossy(bytes: Seq<u8>) -> Seq<char>;

/// Bytes that are all ASCII.
pub open spec fn all_ascii(bytes: Seq<u8>) -> bool {
    forall|i: int| 0 <= i < bytes.len() ==> #[trigger] bytes[i] < 128
}

/// The characters of ASCII bytes.
pub open spec fn ascii_chars(bytes: Seq<u8>) -> Seq<char> {
    bytes.map_values(|b: u8| b as char)
}

/// Calls `String::from_utf8_lossy` (and takes the result as an owned
/// string). The result is the named value [`utf8_lossy`] of the bytes; for
/// ASCII bytes, which are valid UTF-8, it is those characters one for one.
/// What it is for other bytes (the decoding of UTF-8 and the replacement of
/// invalid sequences by U+FFFD) is not stated.
#[verifier::external_body]
fn decode_utf8_lossy(bytes: &Vec<u8>) -> (s: String)
    ensures
        s@ == utf8_lossy(bytes@),
        all_ascii(bytes@) ==> s@ == ascii_chars(bytes@),
{
    String::from_utf8_lossy(bytes.as_slice()).into_owned()
}

/// An HTTP response. Holds the body bytes and gives synchronous access to
/// them.
#[derive(Clone, Debug)]
pub struct NetworkResponse {
    /// The HTTP status code (200, 404, 500, ...).
    pub status: u16,
    /// The headers `(name, value)` in the order received; a name may occur
    /// more than once.
    pub headers: Vec<(String, String)>,
    /// The final URL (after redirects).
    pub url: String,
    body_bytes: Vec<u8>,
}

impl View for NetworkResponse {
    type V = ResponseModel;

    closed spec fn view(&self) -> ResponseModel {
        ResponseModel {
            status: self.status,
            headers: headers_view(self.headers@),
            url: self.url@,
            body: self.body_bytes@,
        }
    }
}

impl NetworkResponse {
    /// A response with the given status, headers, final URL and body.
    pub fn new(status: u16, headers: Vec<(String, String)>, url: String, body_bytes: Vec<u8>) -> (r:
        Self)
        ensures
            r@ == (ResponseModel {
                status,
                headers: headers_view(headers@),
                url: url@,
                body: body_bytes@,
            }),
    {
        NetworkResponse { status, headers, url, body_bytes }
    }

    /// The final URL, as a string slice.
    pub fn final_url(&self) -> (u: &str)
        ensures
            u@ == self@.url,
    {
        self.url.as_str()
    }

    /// The body bytes.
    pub fn body_bytes(&self) -> (b: &[u8])
        ensures
            b@ == self@.body,
    {
        self.body_bytes.as_slice()
    }

    /// The body as text: UTF-8 decoding in which invalid sequences become
    /// U+FFFD (no charset detection).
    pub fn text(&self) -> (s: String)
        ensures
            s@ == utf8_lossy(self@.body),
            all_ascii(self@.body) ==> s@ == ascii_chars(self@.body),
    {
        decode_utf8_lossy(&self.body_bytes)
    }

    /// The value of the first header named `name`, ignoring ASCII case.
    pub fn header(&self, name: &str) -> (r: Option<&str>)
        ensures
            match r {
                Some(v) => header_value(self@.headers, name@) == Some(v@),
                None => header_value(self@.headers, name@) is None,
            },
    {
        let ghost h = self@.headers;
        let mut k: usize = 0;
        while k < self.headers.len()
            invariant
                h == headers_view(self.headers@),
                k <= self.headers.len(),
                header_from(h, name@, 0) == header_from(h, name@, k as int),
            decreases self.headers.len() - k,
        {
            let key = str_to_chars(self.headers[k].0.as_str());
            proof {
                assert(h[k as int] == (self.headers@[k as int].0@, self.headers@[k as int].1@));
            }
            if eq_ci_str(&key, name) {
                return Some(self.headers[k].1.as_str());
            }
            k = k + 1;
        }
        None
    }

    /// Whether the status is a 2xx success.
    pub fn is_success(&self) -> (b: bool)
        ensures
            b == (200 <= self@.status < 300),
    {
        200 <= self.status && self.status < 300
    }
}

} // verus!
