//! Character and string helpers shared by the tokenizer, the DOM and the
//! navigation layer.
//!
//! Text is handled as sequences of `char` inside the library; these helpers
//! convert between `&str` / `String` and `Vec<char>` and implement the ASCII
//! case mappings used by HTML.
use vstd::prelude::*;

verus! {

/// ASCII upper-case letter.
pub open spec fn is_ascii_upper(c: char) -> bool {
    'A' <= c && c <= 'Z'
}

/// ASCII lower-case letter.
pub open spec fn is_ascii_lower(c: char) -> bool {
    'a' <= c && c <= 'z'
}

/// ASCII letter.
pub open spec fn is_ascii_alpha(c: char) -> bool {
    is_ascii_upper(c) || is_ascii_lower(c)
}

/// ASCII digit.
pub open spec fn is_ascii_digit(c: char) -> bool {
    '0' <= c && c <= '9'
}

/// ASCII lower-casing of one character (non-letters are unchanged).
pub open spec fn lower_char(c: char) -> char {
    if is_ascii_upper(c) {
        ((c as u32) + 32) as char
    } else {
        c
    }
}

/// ASCII upper-casing of one character (non-letters are unchanged).
pub open spec fn upper_char(c: char) -> char {
    if is_ascii_lower(c) {
        ((c as u32) - 32) as char
    } else {
        c
    }
}

/// ASCII lower-casing of a character sequence.
pub open spec fn lower_seq(s: Seq<char>) -> Seq<char> {
    s.map_values(|c: char| lower_char(c))
}

/// ASCII upper-casing of a character sequence.
pub open spec fn upper_seq(s: Seq<char>) -> Seq<char> {
    s.map_values(|c: char| upper_char(c))
}

/// ASCII case-insensitive equality of two character sequences.
pub open spec fn eq_ignore_ascii_case(a: Seq<char>, b: Seq<char>) -> bool {
    lower_seq(a) == lower_seq(b)
}

/// `true` when `lit` occurs in `s` at position `i`.
pub open spec fn occurs_at(s: Seq<char>, i: int, lit: Seq<char>) -> bool {
    0 <= i && i + lit.len() <= s.len() && s.subrange(i, i + lit.len()) == lit
}

/// `true` when `lit` occurs in `s` at position `i`, ignoring ASCII case.
pub open spec fn occurs_at_ci(s: Seq<char>, i: int, lit: Seq<char>) -> bool {
    0 <= i && i + lit.len() <= s.len() && lower_seq(s.subrange(i, i + lit.len())) == lower_seq(lit)
}

/// `s` starts with `prefix`.
pub open spec fn starts_with(s: Seq<char>, prefix: Seq<char>) -> bool {
    occurs_at(s, 0, prefix)
}

/// `s` contains `needle` somewhere.
pub open spec fn contains_seq(s: Seq<char>, needle: Seq<char>) -> bool {
    exists|i: int| 0 <= i && #[trigger] occurs_at(s, i, needle)
}

/// Wraps `String::push`: appends one character to a string.
#[verifier::external_body]
fn string_push(s: &mut String, c: char)
    ensures
        final(s)@ == old(s)@.push(c),
{
    s.push(c);
}

/// ASCII lower-casing of one character.
pub fn to_lower(c: char) -> (r: char)
    ensures
        r == lower_char(c),
{
    if 'A' <= c && c <= 'Z' {
        ((c as u8) + 32) as char
    } else {
        c
    }
}

/// ASCII upper-casing of one character.
pub fn to_upper(c: char) -> (r: char)
    ensures
        r == upper_char(c),
{
    if 'a' <= c && c <= 'z' {
        ((c as u8) - 32) as char
    } else {
        c
    }
}

/// Copies the characters of a string slice into a vector.
pub fn str_to_chars(s: &str) -> (v: Vec<char>)
    ensures
        v@ == s@,
{
    let mut v: Vec<char> = Vec::new();
    for c in it: s.chars()
        invariant
            v@ == it.seq().take(it.index() as int),
    {
        v.push(c);
    }
    v
}

/// Builds a string from `v[from..to]`.
pub fn chars_to_string_range(v: &Vec<char>, from: usize, to: usize) -> (s: String)
    requires
        from <= to <= v.len(),
    ensures
        s@ == v@.subrange(from as int, to as int),
{
    let mut s = String::new();
    let mut i = from;
    while i < to
        invariant
            from <= i <= to <= v.len(),
            s@ == v@.subrange(from as int, i as int),
        decreases to - i,
    {
        string_push(&mut s, v[i]);
        assert(v@.subrange(from as int, i + 1) == v@.subrange(from as int, i as int).push(v@[i as int]));
        i = i + 1;
    }
    s
}

/// Builds a string from a character vector.
pub fn chars_to_string(v: &Vec<char>) -> (s: String)
    ensures
        s@ == v@,
{
    let s = chars_to_string_range(v, 0, v.len());
    assert(v@.subrange(0, v@.len() as int) == v@);
    s
}

/// Builds a string from a character vector, applying ASCII lower-casing.
pub fn chars_to_lower_string(v: &Vec<char>) -> (s: String)
    ensures
        s@ == lower_seq(v@),
{
    let mut s = String::new();
    let mut i: usize = 0;
    while i < v.len()
        invariant
            i <= v.len(),
            s@ == lower_seq(v@.subrange(0, i as int)),
        decreases v.len() - i,
    {
        let c = to_lower(v[i]);
        string_push(&mut s, c);
        assert(v@.subrange(0, i + 1) == v@.subrange(0, i as int).push(v@[i as int]));
        assert(lower_seq(v@.subrange(0, i + 1)) == lower_seq(v@.subrange(0, i as int)).push(c));
        i = i + 1;
    }
    assert(v@.subrange(0, v@.len() as int) == v@);
    s
}

/// Builds a string from a character vector, applying ASCII upper-casing.
pub fn chars_to_upper_string(v: &Vec<char>) -> (s: String)
    ensures
        s@ == upper_seq(v@),
{
    let mut s = String::new();
    let mut i: usize = 0;
    while i < v.len()
        invariant
            i <= v.len(),
            s@ == upper_seq(v@.subrange(0, i as int)),
        decreases v.len() - i,
    {
        let c = to_upper(v[i]);
        string_push(&mut s, c);
        assert(v@.subrange(0, i + 1) == v@.subrange(0, i as int).push(v@[i as int]));
        assert(upper_seq(v@.subrange(0, i + 1)) == upper_seq(v@.subrange(0, i as int)).push(c));
        i = i + 1;
    }
    assert(v@.subrange(0, v@.len() as int) == v@);
    s
}

/// ASCII lower-casing of a character vector.
pub fn lower_vec(v: &Vec<char>) -> (r: Vec<char>)
    ensures
        r@ == lower_seq(v@),
{
    let mut r: Vec<char> = Vec::new();
    let mut i: usize = 0;
    while i < v.len()
        invariant
            i <= v.len(),
            r@ == lower_seq(v@.subrange(0, i as int)),
        decreases v.len() - i,
    {
        let c = to_lower(v[i]);
        r.push(c);
        assert(v@.subrange(0, i + 1) == v@.subrange(0, i as int).push(v@[i as int]));
        assert(lower_seq(v@.subrange(0, i + 1)) == lower_seq(v@.subrange(0, i as int)).push(c));
        i = i + 1;
    }
    assert(v@.subrange(0, v@.len() as int) == v@);
    r
}

/// Copies `v[from..to]` into a new vector, ASCII lower-cased.
pub fn lower_range(v: &Vec<char>, from: usize, to: usize) -> (r: Vec<char>)
    requires
        from <= to <= v.len(),
    ensures
        r@ == lower_seq(v@.subrange(from as int, to as int)),
{
    let mut r: Vec<char> = Vec::new();
    let mut i = from;
    while i < to
        invariant
            from <= i <= to <= v.len(),
            r@ == lower_seq(v@.subrange(from as int, i as int)),
        decreases to - i,
    {
        let c = to_lower(v[i]);
        r.push(c);
        assert(v@.subrange(from as int, i + 1) == v@.subrange(from as int, i as int).push(
            v@[i as int],
        ));
        assert(lower_seq(v@.subrange(from as int, i + 1)) == lower_seq(
            v@.subrange(from as int, i as int),
        ).push(c));
        i = i + 1;
    }
    r
}

/// Copies `v[from..to]` into a new vector.
pub fn copy_range(v: &Vec<char>, from: usize, to: usize) -> (r: Vec<char>)
    requires
        from <= to <= v.len(),
    ensures
        r@ == v@.subrange(from as int, to as int),
{
    let mut r: Vec<char> = Vec::new();
    let mut i = from;
    while i < to
        invariant
            from <= i <= to <= v.len(),
            r@ == v@.subrange(from as int, i as int),
        decreases to - i,
    {
        r.push(v[i]);
        assert(v@.subrange(from as int, i + 1) == v@.subrange(from as int, i as int).push(
            v@[i as int],
        ));
        i = i + 1;
    }
    r
}

/// Equality of two character vectors.
pub fn chars_eq(a: &Vec<char>, b: &Vec<char>) -> (r: bool)
    ensures
        r == (a@ == b@),
{
    if a.len() != b.len() {
        return false;
    }
    let mut i: usize = 0;
    while i < a.len()
        invariant
            a.len() == b.len(),
            i <= a.len(),
            a@.subrange(0, i as int) == b@.subrange(0, i as int),
        decreases a.len() - i,
    {
        if a[i] != b[i] {
            assert(a@[i as int] != b@[i as int]);
            return false;
        }
        assert(a@.subrange(0, i + 1) == a@.subrange(0, i as int).push(a@[i as int]));
        assert(b@.subrange(0, i + 1) == b@.subrange(0, i as int).push(b@[i as int]));
        i = i + 1;
    }
    assert(a@.subrange(0, a@.len() as int) == a@);
    assert(b@.subrange(0, b@.len() as int) == b@);
    true
}

/// `true` when the literal `lit` occurs in `v` at position `i`.
pub fn match_at(v: &Vec<char>, i: usize, lit: &str) -> (r: bool)
    ensures
        r == occurs_at(v@, i as int, lit@),
{
    let n = lit.unicode_len();
    if i > v.len() || v.len() - i < n {
        return false;
    }
    let mut k: usize = 0;
    while k < n
        invariant
            n == lit@.len(),
            i + n <= v.len(),
            k <= n,
            v@.subrange(i as int, i + k) == lit@.subrange(0, k as int),
        decreases n - k,
    {
        let c = lit.get_char(k);
        if v[i + k] != c {
            assert(v@.subrange(i as int, i + n)[k as int] != lit@[k as int]);
            return false;
        }
        assert(v@.subrange(i as int, i + k + 1) == v@.subrange(i as int, i + k).push(
            v@[i + k],
        ));
        assert(lit@.subrange(0, k + 1) == lit@.subrange(0, k as int).push(lit@[k as int]));
        k = k + 1;
    }
    assert(lit@.subrange(0, n as int) == lit@);
    true
}

/// `true` when the literal `lit` occurs in `v` at position `i`, ignoring
/// ASCII case.
pub fn match_at_ci(v: &Vec<char>, i: usize, lit: &str) -> (r: bool)
    ensures
        r == occurs_at_ci(v@, i as int, lit@),
{
    let n = lit.unicode_len();
    if i > v.len() || v.len() - i < n {
        return false;
    }
    let mut k: usize = 0;
    while k < n
        invariant
            n == lit@.len(),
            i + n <= v.len(),
            k <= n,
            lower_seq(v@.subrange(i as int, i + k)) == lower_seq(lit@.subrange(0, k as int)),
        decreases n - k,
    {
        let c = lit.get_char(k);
        if to_lower(v[i + k]) != to_lower(c) {
            assert(lower_seq(v@.subrange(i as int, i + n))[k as int] != lower_seq(lit@)[k as int]);
            return false;
        }
        assert(v@.subrange(i as int, i + k + 1) == v@.subrange(i as int, i + k).push(
            v@[i + k],
        ));
        assert(lit@.subrange(0, k + 1) == lit@.subrange(0, k as int).push(lit@[k as int]));
        assert(lower_seq(v@.subrange(i as int, i + k + 1)) == lower_seq(
            v@.subrange(i as int, i + k),
        ).push(lower_char(v@[i + k])));
        assert(lower_seq(lit@.subrange(0, k + 1)) == lower_seq(lit@.subrange(0, k as int)).push(
            lower_char(lit@[k as int]),
        ));
        k = k + 1;
    }
    assert(lit@.subrange(0, n as int) == lit@);
    true
}

/// ASCII case-insensitive equality of a character vector and a string.
pub fn eq_ci_str(v: &Vec<char>, s: &str) -> (r: bool)
    ensures
        r == eq_ignore_ascii_case(v@, s@),
{
    let n = s.unicode_len();
    if v.len() != n {
        proof {
            if eq_ignore_ascii_case(v@, s@) {
                assert(lower_seq(v@).len() == v@.len());
            }
        }
        return false;
    }
    let r = match_at_ci(v, 0, s);
    assert(v@.subrange(0, n as int) == v@);
    r
}

/// Equality of a character vector and a string.
pub fn eq_str(v: &Vec<char>, s: &str) -> (r: bool)
    ensures
        r == (v@ == s@),
{
    let n = s.unicode_len();
    if v.len() != n {
        return false;
    }
    let r = match_at(v, 0, s);
    assert(v@.subrange(0, n as int) == v@);
    r
}

/// Appends the characters of `s` to `v`.
pub fn push_str(v: &mut Vec<char>, s: &str)
    ensures
        final(v)@ == old(v)@ + s@,
{
    let w = str_to_chars(s);
    let mut i: usize = 0;
    while i < w.len()
        invariant
            w@ == s@,
            i <= w.len(),
            v@ == old(v)@ + w@.subrange(0, i as int),
        decreases w.len() - i,
    {
        v.push(w[i]);
        assert(w@.subrange(0, i + 1) == w@.subrange(0, i as int).push(w@[i as int]));
        i = i + 1;
    }
    assert(w@.subrange(0, w@.len() as int) == w@);
}

/// Appends the characters of `w` to `v`.
pub fn push_chars(v: &mut Vec<char>, w: &Vec<char>)
    ensures
        final(v)@ == old(v)@ + w@,
{
    let mut i: usize = 0;
    while i < w.len()
        invariant
            i <= w.len(),
            v@ == old(v)@ + w@.subrange(0, i as int),
        decreases w.len() - i,
    {
        v.push(w[i]);
        assert(w@.subrange(0, i + 1) == w@.subrange(0, i as int).push(w@[i as int]));
        i = i + 1;
    }
    assert(w@.subrange(0, w@.len() as int) == w@);
}

/// `true` when the literal `lit` occurs somewhere in `v`.
pub fn contains_str(v: &Vec<char>, lit: &str) -> (r: bool)
    ensures
        r == contains_seq(v@, lit@),
{
    let mut i: usize = 0;
    while i < v.len()
        invariant
            i <= v.len(),
            forall|k: int| 0 <= k < i ==> !#[trigger] occurs_at(v@, k, lit@),
        decreases v.len() - i,
    {
        if match_at(v, i, lit) {
            return true;
        }
        i = i + 1;
    }
    if match_at(v, i, lit) {
        return true;
    }
    proof {
        assert forall|k: int| 0 <= k implies !#[trigger] occurs_at(v@, k, lit@) by {
            if k > i {
                assert(k + lit@.len() > v@.len());
            }
        }
    }
    false
}

/// Lower-casing leaves a sequence without upper-case ASCII letters as it
/// is.
pub proof fn lemma_lower_seq_id(s: Seq<char>)
    requires
        forall|i: int| 0 <= i < s.len() ==> !is_ascii_upper(#[trigger] s[i]),
    ensures
        lower_seq(s) == s,
{
    assert(lower_seq(s) =~= s);
}

/// No upper-case ASCII letter in `s`.
pub open spec fn no_ascii_upper(s: Seq<char>) -> bool {
    forall|i: int| 0 <= i < s.len() ==> !is_ascii_upper(#[trigger] s[i])
}

/// Lower-casing leaves no upper-case ASCII letter.
pub proof fn lemma_lower_seq_no_upper(s: Seq<char>)
    ensures
        no_ascii_upper(lower_seq(s)),
{
    assert forall|i: int| 0 <= i < lower_seq(s).len() implies !is_ascii_upper(
        #[trigger] lower_seq(s)[i],
    ) by {
        let c = s[i];
        if is_ascii_upper(c) {
            assert(lower_seq(s)[i] == ((c as u32) + 32) as char);
            assert('a' <= ((c as u32) + 32) as char);
        }
    }
}

} // verus!
