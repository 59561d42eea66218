//! Character classes of the language and the scanners built on them.
use vstd::prelude::*;
use vstd::string::StrSliceExecFns;

verus! {

/// Whether `c` is an ASCII decimal digit.
pub open spec fn is_digit(c: char) -> bool {
    '0' <= c && c <= '9'
}

/// Whether `c` is an ASCII letter.
pub open spec fn is_ascii_letter(c: char) -> bool {
    ('a' <= c && c <= 'z') || ('A' <= c && c <= 'Z')
}

/// Whether `c` is an ASCII hexadecimal digit, in either case.
pub open spec fn is_hex(c: char) -> bool {
    is_digit(c) || ('a' <= c && c <= 'f') || ('A' <= c && c <= 'F')
}

/// The Unicode `Alphabetic` property of a character.
pub uninterp spec fn alphabetic(c: char) -> bool;

/// The Unicode `Alphabetic` or `Numeric` property of a character.
pub uninterp spec fn alphanumeric(c: char) -> bool;

/// The full Unicode lower-case mapping of a string.
pub uninterp spec fn lower_of(s: Seq<char>) -> Seq<char>;

/// A letter: among ASCII characters `a`-`z` and `A`-`Z`, beyond them a
/// character with the Unicode `Alphabetic` property.
pub open spec fn is_letter(c: char) -> bool {
    if (c as u32) < 128 {
        is_ascii_letter(c)
    } else {
        alphabetic(c)
    }
}

/// A letter or a digit: among ASCII characters the letters and `0`-`9`,
/// beyond them a character that is `Alphabetic` or `Numeric`.
pub open spec fn is_letter_or_digit(c: char) -> bool {
    if (c as u32) < 128 {
        is_ascii_letter(c) || is_digit(c)
    } else {
        alphanumeric(c)
    }
}

/// Relies on `char::is_alphabetic`: whether `c` has the Unicode `Alphabetic`
/// property; among ASCII characters exactly the letters have it.
#[verifier::external_body]
fn is_alphabetic(c: char) -> (r: bool)
    ensures
        r == alphabetic(c),
        (c as u32) < 128 ==> (r <==> is_ascii_letter(c)),
{
    c.is_alphabetic()
}

/// Relies on `char::is_alphanumeric`: whether `c` is `Alphabetic` or
/// `Numeric`; among ASCII characters exactly the letters and digits are.
#[verifier::external_body]
fn is_alphanumeric(c: char) -> (r: bool)
    ensures
        r == alphanumeric(c),
        (c as u32) < 128 ==> (r <==> (is_ascii_letter(c) || is_digit(c))),
{
    c.is_alphanumeric()
}

/// Whether every character is ASCII.
pub open spec fn ascii_text(s: Seq<char>) -> bool {
    forall|k: int| 0 <= k < s.len() ==> (#[trigger] s[k] as u32) < 128
}

/// Whether `r` is `s` with its ASCII capitals made small and every other
/// character kept.
pub open spec fn ascii_lowered(s: Seq<char>, r: Seq<char>) -> bool {
    r.len() == s.len() && forall|k: int|
        0 <= k < s.len() ==> (#[trigger] r[k] as int) == if 'A' <= s[k] && s[k] <= 'Z' {
            s[k] as int + 32
        } else {
            s[k] as int
        }
}

/// Relies on `str::to_lowercase`: the lower-case mapping of the whole string,
/// which on ASCII text makes `A`-`Z` into `a`-`z` and keeps every other
/// character.
#[verifier::external_body]
pub(crate) fn to_lower(s: &String) -> (r: String)
    ensures
        r@ == lower_of(s@),
        ascii_text(s@) ==> ascii_lowered(s@, r@),
{
    s.to_lowercase()
}

/// Relies on `String::push`: appends one character.
#[verifier::external_body]
pub(crate) fn push_char(s: &mut String, c: char)
    ensures
        final(s)@ == old(s)@.push(c),
{
    s.push(c)
}

/// The characters of a string, in order.
pub fn chars_of(s: &str) -> (r: Vec<char>)
    ensures
        r@ == s@,
{
    broadcast use vstd::string::group_string_axioms;

    let mut v: Vec<char> = Vec::new();
    for c in it: s.chars()
        invariant
            v@ == it.seq().subrange(0, it.index() as int),
            it.seq() == s@,
    {
        v.push(c);
    }
    assert(v@ =~= s@);
    v
}

/// A `String` holding `v[from..to]`.
pub fn text_of(v: &Vec<char>, from: usize, to: usize) -> (r: String)
    requires
        from <= to <= v@.len(),
    ensures
        r@ == v@.subrange(from as int, to as int),
{
    let mut out = String::new();
    let mut k = from;
    while k < to
        invariant
            from <= k <= to <= v@.len(),
            out@ == v@.subrange(from as int, k as int),
        decreases to - k,
    {
        push_char(&mut out, v[k]);
        assert(v@.subrange(from as int, k + 1) =~= v@.subrange(from as int, k as int).push(v@[k as int]));
        k = k + 1;
    }
    out
}

/// The character classes that the scanners walk over.
#[derive(Clone, Copy, Debug, PartialEq, Eq)]
pub enum Class {
    /// Spaces and tabs.
    Space,
    /// Spaces, tabs, carriage returns and line feeds.
    Multispace,
    /// Decimal digits and the `_` separator.
    DigitOrUnderscore,
    /// What may continue an identifier that starts with a letter.
    IdentTail,
    /// Alphabetic characters.
    Alpha,
    /// Anything but a carriage return or a line feed.
    NotEol,
    /// The characters of `++`, `--` and `|>`.
    ListOp,
    /// The characters of the comparison operators.
    CompareOp,
}

/// Membership of a character in a class.
pub open spec fn in_class(c: char, k: Class) -> bool {
    match k {
        Class::Space => c == ' ' || c == '\t',
        Class::Multispace => c == ' ' || c == '\t' || c == '\r' || c == '\n',
        Class::DigitOrUnderscore => is_digit(c) || c == '_',
        Class::IdentTail => is_letter_or_digit(c) || c == '_' || c == '-',
        Class::Alpha => is_letter(c),
        Class::NotEol => c != '\r' && c != '\n',
        Class::ListOp => c == '+' || c == '-' || c == '|' || c == '>',
        Class::CompareOp => c == '=' || c == '!' || c == '>' || c == '<',
    }
}

/// Decides `in_class`.
pub fn class_has(c: char, k: Class) -> (r: bool)
    ensures
        r == in_class(c, k),
{
    match k {
        Class::Space => c == ' ' || c == '\t',
        Class::Multispace => c == ' ' || c == '\t' || c == '\r' || c == '\n',
        Class::DigitOrUnderscore => ('0' <= c && c <= '9') || c == '_',
        Class::IdentTail => is_alphanumeric(c) || c == '_' || c == '-',
        Class::Alpha => is_alphabetic(c),
        Class::NotEol => c != '\r' && c != '\n',
        Class::ListOp => c == '+' || c == '-' || c == '|' || c == '>',
        Class::CompareOp => c == '=' || c == '!' || c == '>' || c == '<',
    }
}

/// The end of the longest run of class members that starts at `i`.
pub open spec fn run_end(s: Seq<char>, i: int, k: Class) -> int
    decreases s.len() - i,
{
    if 0 <= i < s.len() && in_class(s[i], k) {
        run_end(s, i + 1, k)
    } else {
        i
    }
}

/// Computes `run_end`.
pub fn scan(v: &Vec<char>, i: usize, k: Class) -> (r: usize)
    requires
        i <= v@.len(),
    ensures
        r == run_end(v@, i as int, k),
        i <= r <= v@.len(),
{
    let mut j = i;
    while j < v.len() && class_has(v[j], k)
        invariant
            i <= j <= v@.len(),
            run_end(v@, i as int, k) == run_end(v@, j as int, k),
        decreases v@.len() - j,
    {
        j = j + 1;
    }
    j
}

/// Whether `c` is at position `i` of `s`.
pub open spec fn char_at(s: Seq<char>, i: int, c: char) -> bool {
    0 <= i < s.len() && s[i] == c
}

/// Decides `char_at`.
pub fn has_char(v: &Vec<char>, i: usize, c: char) -> (r: bool)
    ensures
        r == char_at(v@, i as int, c),
{
    i < v.len() && v[i] == c
}

/// ASCII case-insensitive equality of two characters, where `w` is lower case.
pub open spec fn same_fold(c: char, w: char) -> bool {
    c == w || ('a' <= w && w <= 'z' && c as u32 == w as u32 - 32)
}

/// Whether the keyword `w` (lower case) stands at `i`, in any ASCII case.
pub open spec fn word_at(s: Seq<char>, i: int, w: Seq<char>) -> bool {
    0 <= i && i + w.len() <= s.len() && forall|k: int| 0 <= k < w.len() ==> same_fold(#[trigger] s[i + k], w[k])
}

/// Whether the text `w` stands at `i` exactly.
pub open spec fn exact_at(s: Seq<char>, i: int, w: Seq<char>) -> bool {
    0 <= i && i + w.len() <= s.len() && s.subrange(i, i + w.len()) == w
}

/// Decides `word_at` for a keyword.
pub fn has_word(v: &Vec<char>, i: usize, w: &str) -> (r: bool)
    ensures
        r == word_at(v@, i as int, w@),
{
    let wn = w.unicode_len();
    if i > v.len() || wn > v.len() - i {
        return false;
    }
    let n = v.len();
    let mut k: usize = 0;
    while k < wn
        invariant
            n == v@.len(),
            wn == w@.len(),
            i + wn <= n,
            k <= wn,
            forall|m: int| 0 <= m < k ==> same_fold(#[trigger] v@[i + m], w@[m]),
        decreases wn - k,
    {
        let c = v[i + k];
        let x = w.get_char(k);
        let ok = c == x || ('a' <= x && x <= 'z' && c as u32 == x as u32 - 32);
        if !ok {
            assert(!same_fold(v@[i + k], w@[k as int]));
            return false;
        }
        k = k + 1;
    }
    true
}

/// Decides `exact_at` for a text.
pub fn has_text(v: &Vec<char>, i: usize, w: &str) -> (r: bool)
    ensures
        r == exact_at(v@, i as int, w@),
{
    let wn = w.unicode_len();
    if i > v.len() || wn > v.len() - i {
        return false;
    }
    let n = v.len();
    let mut k: usize = 0;
    while k < wn
        invariant
            n == v@.len(),
            wn == w@.len(),
            i + wn <= n,
            k <= wn,
            forall|m: int| 0 <= m < k ==> v@[i + m] == w@[m],
        decreases wn - k,
    {
        if v[i + k] != w.get_char(k) {
            assert(v@.subrange(i as int, i + w@.len())[k as int] != w@[k as int]);
            return false;
        }
        k = k + 1;
    }
    assert(v@.subrange(i as int, i + w@.len()) =~= w@);
    true
}

/// Whether two character vectors are equal.
pub fn same_chars(v: &Vec<char>, w: &Vec<char>) -> (r: bool)
    ensures
        r == (v@ == w@),
{
    if v.len() != w.len() {
        return false;
    }
    let n = v.len();
    let mut k: usize = 0;
    while k < n
        invariant
            n == v@.len(),
            n == w@.len(),
            k <= n,
            forall|m: int| 0 <= m < k ==> v@[m] == w@[m],
        decreases n - k,
    {
        if v[k] != w[k] {
            return false;
        }
        k = k + 1;
    }
    assert(v@ =~= w@);
    true
}

/// Texts that differ only in the case of ASCII letters lower to the same
/// text.
pub proof fn law_ascii_case(a: Seq<char>, b: Seq<char>, x: Seq<char>, y: Seq<char>)
    requires
        ascii_lowered(a, x),
        ascii_lowered(b, y),
        a.len() == b.len(),
        forall|k: int|
            0 <= k < a.len() ==> (#[trigger] a[k] == b[k] || (a[k] as int == b[k] as int + 32 && 'A'
                <= b[k] && b[k] <= 'Z') || (b[k] as int == a[k] as int + 32 && 'A' <= a[k] && a[k]
                <= 'Z')),
    ensures
        x == y,
{
    assert forall|k: int| 0 <= k < x.len() implies x[k] == y[k] by {
        assert(a[k] == b[k] || (a[k] as int == b[k] as int + 32 && 'A' <= b[k] && b[k] <= 'Z') || (
        b[k] as int == a[k] as int + 32 && 'A' <= a[k] && a[k] <= 'Z'));
        assert(x[k] as int == y[k] as int);
    }
    assert(x =~= y);
}

/// Accepts a character that may follow `0x` in an address literal.
pub fn valid_address_char(c: char) -> (r: bool)
    ensures
        r == is_hex(c),
{
    ('0' <= c && c <= '9') || ('a' <= c && c <= 'f') || ('A' <= c && c <= 'F')
}

/// Accepts the first character of an identifier that starts with a letter.
pub fn valid_ident_start_char_a(c: char) -> (r: bool)
    ensures
        r == (is_letter(c) || c == '_'),
{
    is_alphabetic(c) || c == '_'
}

/// Accepts a later character of an identifier that starts with a letter.
pub fn valid_ident_char_a(c: char) -> (r: bool)
    ensures
        r == in_class(c, Class::IdentTail),
{
    class_has(c, Class::IdentTail)
}

/// Accepts the first character of an identifier that starts with a digit.
pub fn valid_ident_start_char_1(c: char) -> (r: bool)
    ensures
        r == is_digit(c),
{
    '0' <= c && c <= '9'
}

/// Accepts a later character of an identifier that starts with a digit.
pub fn valid_ident_char_1(c: char) -> (r: bool)
    ensures
        r == is_letter(c),
{
    is_alphabetic(c)
}

} // verus!
