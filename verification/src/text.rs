//! Character classes and string building used by the lexer and the rules.
use vstd::prelude::*;
use vstd::string::StringExecFns;

verus! {

/// Whether a character from U+0080 on has the Unicode `Alphabetic` property
/// (`char::is_alphabetic`).
pub uninterp spec fn wide_alphabetic(c: char) -> bool;

/// Whether `c` has the Unicode `Alphabetic` property: among the ASCII characters the
/// letters `A` to `Z` and `a` to `z`, and `wide_alphabetic` beyond them.
pub open spec fn char_alphabetic(c: char) -> bool {
    if ascii(c) { ('a' <= c && c <= 'z') || ('A' <= c && c <= 'Z') } else { wide_alphabetic(c) }
}

/// `char::is_alphabetic`: the result is the Unicode `Alphabetic` property of `c`,
/// `char_alphabetic`: the ASCII letters, and beyond ASCII its tables, named by
/// `wide_alphabetic` and not written out here.
#[verifier::external_body]
pub(crate) fn is_alphabetic(c: char) -> (r: bool)
    ensures
        r == char_alphabetic(c),
        !ascii(c) ==> r == wide_alphabetic(c),
{
    c.is_alphabetic()
}

/// Whether a character from U+0080 on is in one of the Unicode general categories
/// Nd, Nl or No (`char::is_numeric`).
pub uninterp spec fn wide_numeric(c: char) -> bool;

/// Whether `c` is in one of the Unicode general categories Nd, Nl or No: among the
/// ASCII characters the digits, and `wide_numeric` beyond them.
pub open spec fn char_numeric(c: char) -> bool {
    if ascii(c) { ascii_digit(c) } else { wide_numeric(c) }
}

/// Whether a character from U+0080 on has the Unicode `White_Space` property
/// (`char::is_whitespace`).
pub uninterp spec fn wide_whitespace(c: char) -> bool;

/// Whether `c` has the Unicode `White_Space` property: among the ASCII characters the
/// space and U+0009 to U+000D, and `wide_whitespace` beyond them.
pub open spec fn char_whitespace(c: char) -> bool {
    if ascii(c) { c == ' ' || ('\t' <= c && c <= '\r') } else { wide_whitespace(c) }
}

/// Whether a character from U+0080 on has the Unicode general category `Cc`
/// (`char::is_control`).
pub uninterp spec fn wide_control(c: char) -> bool;

/// Whether `c` has the Unicode general category `Cc`: among the ASCII characters
/// those below U+0020 and U+007F, and `wide_control` beyond them.
pub open spec fn char_control(c: char) -> bool {
    if ascii(c) { (c as u32) < 0x20 || (c as u32) == 0x7F } else { wide_control(c) }
}

/// The lowercase mapping of every character of `s` (`str::to_lowercase`).
pub uninterp spec fn lowercase_of(s: Seq<char>) -> Seq<char>;

/// `char::is_numeric`: the result is whether `c` is in one of the Unicode categories
/// Nd, Nl or No, `char_numeric`: the ASCII digits, and beyond ASCII its tables, named
/// by `wide_numeric` and not written out here.
#[verifier::external_body]
pub(crate) fn is_numeric(c: char) -> (r: bool)
    ensures
        r == char_numeric(c),
        !ascii(c) ==> r == wide_numeric(c),
{
    c.is_numeric()
}

/// `char::is_whitespace`: the result is the Unicode `White_Space` property of `c`,
/// `char_whitespace`: the space and U+0009 to U+000D among the ASCII characters, and
/// beyond ASCII the property's list, named by `wide_whitespace` and not written out.
#[verifier::external_body]
pub(crate) fn is_whitespace(c: char) -> (r: bool)
    ensures
        r == char_whitespace(c),
        !ascii(c) ==> r == wide_whitespace(c),
{
    c.is_whitespace()
}

/// `char::is_control`: the result is whether `c` has the general category `Cc`,
/// `char_control`: below U+0020 and U+007F among the ASCII characters, and beyond
/// ASCII the category's list, named by `wide_control` and not written out here.
#[verifier::external_body]
pub(crate) fn is_control(c: char) -> (r: bool)
    ensures
        r == char_control(c),
        !ascii(c) ==> r == wide_control(c),
{
    c.is_control()
}

/// `str::to_lowercase`: the result is the Unicode lowercase mapping of `s`, named by
/// `lowercase_of`; the mapping (which may change the length) is not written out here,
/// only that on ASCII text it maps `A` to `Z` to `a` to `z` and keeps the rest, and
/// that it gives the same text whatever the ASCII case of `s` (changing the case of
/// an ASCII letter changes neither its lowercase nor which characters are cased,
/// on which the final-sigma rule depends).
#[verifier::external_body]
pub(crate) fn to_lowercase(s: &str) -> (r: String)
    ensures
        r@ == lowercase_of(s@),
        ascii_text(s@) ==> r@ == ascii_lowercase_text(s@),
        r@ == lowercase_of(ascii_lowercase_text(s@)),
        r@ == lowercase_of(ascii_uppercase_text(s@)),
{
    s.to_lowercase()
}

pub open spec fn ascii_digit(c: char) -> bool {
    '0' <= c && c <= '9'
}

pub fn is_ascii_digit(c: char) -> (r: bool)
    ensures
        r == ascii_digit(c),
{
    '0' <= c && c <= '9'
}

pub open spec fn ascii(c: char) -> bool {
    (c as u32) < 128
}

pub fn is_ascii(c: char) -> (r: bool)
    ensures
        r == ascii(c),
{
    (c as u32) < 128
}

/// Whether every character of `s` is ASCII.
pub open spec fn ascii_text(s: Seq<char>) -> bool {
    forall|i: int| 0 <= i < s.len() ==> ascii(#[trigger] s[i])
}

/// `c` with `A` to `Z` mapped to `a` to `z`.
pub open spec fn ascii_lower(c: char) -> char {
    if 'A' <= c && c <= 'Z' { ((c as u32) + 32) as char } else { c }
}

/// `s` with `A` to `Z` mapped to `a` to `z`.
pub open spec fn ascii_lowercase_text(s: Seq<char>) -> Seq<char> {
    s.map_values(|c: char| ascii_lower(c))
}

/// `c` with `a` to `z` mapped to `A` to `Z`.
pub open spec fn ascii_upper(c: char) -> char {
    if 'a' <= c && c <= 'z' { ((c as u32) - 32) as char } else { c }
}

/// `s` with `a` to `z` mapped to `A` to `Z` (`str::to_ascii_uppercase`).
pub open spec fn ascii_uppercase_text(s: Seq<char>) -> Seq<char> {
    s.map_values(|c: char| ascii_upper(c))
}

pub open spec fn ascii_lowercase(c: char) -> bool {
    'a' <= c && c <= 'z'
}

/// Whether `s` is empty after removing white space at both ends (`str::trim`).
pub open spec fn blank(s: Seq<char>) -> bool {
    forall|i: int| 0 <= i < s.len() ==> char_whitespace(#[trigger] s[i])
}

/// `s` without the white space at its start and at its end (`str::trim`): the
/// characters from the first one that is not white space to the last one.
pub open spec fn trim_spec(s: Seq<char>) -> Seq<char> {
    if blank(s) {
        Seq::empty()
    } else {
        let a = choose|a: int| 0 <= a < s.len() && !char_whitespace(s[a]) && forall|k: int| 0 <= k < a ==> char_whitespace(#[trigger] s[k]);
        let b = choose|b: int| 0 <= b < s.len() && !char_whitespace(s[b]) && forall|k: int| b < k < s.len() ==> char_whitespace(#[trigger] s[k]);
        s.subrange(a, b + 1)
    }
}

/// The characters of `s` without the white space at both ends.
pub fn trimmed(s: &str) -> (r: String)
    ensures
        r@ == trim_spec(s@),
{
    let v = chars_of(s);
    let mut a: usize = 0;
    while a < v.len() && is_whitespace(v[a])
        invariant
            v@ == s@,
            0 <= a <= v.len(),
            forall|k: int| 0 <= k < a ==> char_whitespace(#[trigger] s@[k]),
        decreases v.len() - a,
    {
        a += 1;
    }
    if a == v.len() {
        return String::new();
    }
    let mut b: usize = v.len() - 1;
    while is_whitespace(v[b])
        invariant
            v@ == s@,
            a <= b < v.len(),
            !char_whitespace(s@[a as int]),
            forall|k: int| b < k < s@.len() ==> char_whitespace(#[trigger] s@[k]),
        decreases b,
    {
        b -= 1;
    }
    let mut r = String::new();
    let mut i = a;
    while i <= b
        invariant
            v@ == s@,
            a <= i <= b + 1,
            b < v.len(),
            r@ == s@.subrange(a as int, i as int),
        decreases b + 1 - i,
    {
        push_char(&mut r, v[i]);
        assert(s@.subrange(a as int, i + 1) =~= s@.subrange(a as int, i as int).push(s@[i as int]));
        i += 1;
    }
    proof {
        assert(!blank(s@));
        let a0 = choose|x: int| 0 <= x < s@.len() && !char_whitespace(s@[x]) && forall|k: int| 0 <= k < x ==> char_whitespace(#[trigger] s@[k]);
        let b0 = choose|x: int| 0 <= x < s@.len() && !char_whitespace(s@[x]) && forall|k: int| x < k < s@.len() ==> char_whitespace(#[trigger] s@[k]);
        assert(0 <= a0 < s@.len() && !char_whitespace(s@[a0]) && forall|k: int| 0 <= k < a0 ==> char_whitespace(#[trigger] s@[k]));
        assert(0 <= b0 < s@.len() && !char_whitespace(s@[b0]) && forall|k: int| b0 < k < s@.len() ==> char_whitespace(#[trigger] s@[k]));
        if a0 < a {
            assert(char_whitespace(s@[a0]));
        }
        if a < a0 {
            assert(char_whitespace(s@[a as int]));
        }
        if b0 < b {
            assert(char_whitespace(s@[b as int]));
        }
        if b < b0 {
            assert(char_whitespace(s@[b0]));
        }
    }
    r
}

pub fn is_blank(s: &str) -> (r: bool)
    ensures
        r == blank(s@),
{
    let v = chars_of(s);
    let mut i: usize = 0;
    while i < v.len()
        invariant
            v@ == s@,
            0 <= i <= v.len(),
            forall|j: int| 0 <= j < i ==> char_whitespace(#[trigger] s@[j]),
        decreases v.len() - i,
    {
        if !is_whitespace(v[i]) {
            return false;
        }
        i += 1;
    }
    true
}

/// Whether `a` and `b` hold the same characters.
pub fn str_eq(a: &str, b: &str) -> (r: bool)
    ensures
        r == (a@ == b@),
{
    let x = chars_of(a);
    let y = chars_of(b);
    if x.len() != y.len() {
        return false;
    }
    let mut i: usize = 0;
    while i < x.len()
        invariant
            x@ == a@,
            y@ == b@,
            x@.len() == y@.len(),
            0 <= i <= x.len(),
            forall|j: int| 0 <= j < i ==> x@[j] == y@[j],
        decreases x.len() - i,
    {
        if x[i] != y[i] {
            return false;
        }
        i += 1;
    }
    assert(x@ =~= y@);
    true
}

/// Whether the characters `v` are those of the literal `lit`.
pub fn eq_lit(v: &Vec<char>, lit: &str) -> (r: bool)
    ensures
        r == (v@ == lit@),
{
    let w = chars_of(lit);
    if v.len() != w.len() {
        return false;
    }
    let mut i: usize = 0;
    while i < v.len()
        invariant
            w@ == lit@,
            v@.len() == w@.len(),
            0 <= i <= v.len(),
            forall|j: int| 0 <= j < i ==> v@[j] == w@[j],
        decreases v.len() - i,
    {
        if v[i] != w[i] {
            return false;
        }
        i += 1;
    }
    assert(v@ =~= w@);
    true
}

/// Whether the character `c` occurs in `s`.
pub fn has_char(s: &str, c: char) -> (r: bool)
    ensures
        r == s@.contains(c),
{
    let v = chars_of(s);
    let mut i: usize = 0;
    while i < v.len()
        invariant
            v@ == s@,
            0 <= i <= v.len(),
            forall|j: int| 0 <= j < i ==> v@[j] != c,
        decreases v.len() - i,
    {
        if v[i] == c {
            return true;
        }
        i += 1;
    }
    false
}

/// A string holding the one character `c`.
pub fn string_of_char(c: char) -> (r: String)
    ensures
        r@ == seq![c],
{
    let mut s = String::new();
    push_char(&mut s, c);
    s
}

/// A string holding the characters of `s`.
pub fn owned(s: &str) -> (r: String)
    ensures
        r@ == s@,
{
    String::from_str(s)
}

/// `String::push`: appends `c` at the end of `s`.
#[verifier::external_body]
pub(crate) fn push_char(s: &mut String, c: char)
    ensures
        final(s)@ == old(s)@.push(c),
{
    s.push(c)
}

/// Appends the characters of `t` at the end of `s`.
pub fn push_str(s: &mut String, t: &str)
    ensures
        final(s)@ == old(s)@ + t@,
{
    s.append(t)
}

/// The characters of `a` followed by those of `b`.
pub fn concat2(a: &str, b: &str) -> (r: String)
    ensures
        r@ == a@ + b@,
{
    let mut s = owned(a);
    push_str(&mut s, b);
    s
}

/// The characters of `a`, `b` and `c` in turn.
pub fn concat3(a: &str, b: &str, c: &str) -> (r: String)
    ensures
        r@ == a@ + b@ + c@,
{
    let mut s = owned(a);
    push_str(&mut s, b);
    push_str(&mut s, c);
    s
}

} // verus!
verus! {

/// The characters of `s`, in order.
pub fn chars_of(s: &str) -> (r: Vec<char>)
    ensures
        r@ == s@,
{
    let mut v: Vec<char> = Vec::new();
    for c in it: s.chars()
        invariant
            v@ == it.seq().take(it.index() as int),
            it.seq() == s@,
    {
        v.push(c);
    }
    v
}

} // verus!
