//! Laws of the language, proved over the grammar.
use vstd::prelude::*;
use crate::ast::{SNode, SToken};
use crate::chars::{Class, char_at, in_class, is_digit, run_end};
use crate::grammar::{SOut, SPost, apply_postfix, numeric, postfix, postfix_fold};
use crate::number::{
    Decimal, N, Scanned, apply_exponent, dec, digit_count, digits_value, exponent_at,
    exponent_digits_start, fits_i64, number_at, pow10,
};
use crate::text::{
    decimal_text, integer_text, lemma_decimal_text, lemma_integer_text, magnitude, seq_value,
};

verus! {

/// The digits of `t`, its `_` separators left out.
pub open spec fn strip_underscores(t: Seq<char>) -> Seq<char>
    decreases t.len(),
{
    if t.len() == 0 {
        t
    } else if t[t.len() - 1] == '_' {
        strip_underscores(t.subrange(0, t.len() - 1))
    } else {
        strip_underscores(t.subrange(0, t.len() - 1)).push(t[t.len() - 1])
    }
}

/// Digits with `_` separators between them: it starts and ends with a digit.
pub open spec fn grouped_digits(t: Seq<char>) -> bool {
    t.len() > 0 && is_digit(t[0]) && is_digit(t[t.len() - 1]) && forall|k: int| 0 <= k < t.len() ==> #[trigger] in_class(t[k], Class::DigitOrUnderscore)
}

/// What reading all of a text as a number gives: a value, an abort (`None`),
/// or no reading of the whole text.
pub open spec fn whole_number(r: Scanned<int>, len: int) -> Option<Option<N>> {
    match r {
        Scanned::Done(v, p) => if p == len {
            Some(Some(v))
        } else {
            None
        },
        Scanned::Fail => Some(None),
        Scanned::Miss => None,
    }
}

/// The text of an integer parses as that integer, and with `.0` appended as
/// the decimal of the same value with one fractional zero.
pub proof fn law_integer_text(n: i64)
    ensures
        numeric(integer_text(n as int), 0) == SOut::Done(
            crate::grammar::at(integer_text(n as int), 0, SToken::Number(N::Int(n))),
            integer_text(n as int).len() as int,
        ),
        numeric(integer_text(n as int) + seq!['.', '0'], 0) == SOut::Done(
            crate::grammar::at(
                integer_text(n as int) + seq!['.', '0'],
                0,
                SToken::Number(dec(n * 10, 1)),
            ),
            integer_text(n as int).len() as int + 2,
        ),
{
    lemma_integer_text(n);
}

/// The rendered text of a decimal reads back with the same digits and scale;
/// a decimal of scale zero renders as integer text, which reads back as that
/// integer when it fits an `i64` and fails when it does not.
pub proof fn law_decimal_round_trip(d: Decimal)
    requires
        d.wf(),
    ensures
        d.scale > 0 ==> number_at(decimal_text(d), 0) == Scanned::Done(
            N::Decimal(d),
            decimal_text(d).len() as int,
        ),
        d.scale == 0 && fits_i64(d.mantissa as int) ==> number_at(decimal_text(d), 0)
            == Scanned::Done(N::Int(d.mantissa as i64), decimal_text(d).len() as int),
        d.scale == 0 && !fits_i64(d.mantissa as int) ==> number_at(decimal_text(d), 0)
            == Scanned::<int>::Fail,
{
    lemma_decimal_text(d);
}

/// An integer times a non-negative power of ten stays an integer when the
/// product fits; a negative exponent gives a decimal; a decimal times a
/// power of ten becomes an integer exactly when no fraction is left.
pub proof fn law_exponent(n: N, e: int)
    ensures
        n is Int && e >= 0 && fits_i64(n->Int_0 * pow10(e as nat)) ==> apply_exponent(n, e)
            == Some(N::Int((n->Int_0 * pow10(e as nat)) as i64)),
        n is Int && e < 0 && apply_exponent(n, e) is Some ==> apply_exponent(n, e)->0 is Decimal,
        n is Int && e < 0 && (-e <= 28 || n->Int_0 == 0) ==> apply_exponent(n, e) is Some,
        n is Decimal && e >= 0 && apply_exponent(n, e) is Some ==> (apply_exponent(n, e)->0 is Int
            <==> (n->Decimal_0.mantissa * pow10(e as nat)) % pow10(n->Decimal_0.scale as nat) == 0),
        n is Decimal && e < 0 && apply_exponent(n, e) is Some ==> apply_exponent(n, e)->0 is Decimal,
{
}

/// A percentage is a number followed at once by `%`, with the same value.
pub proof fn law_percentage(s: Seq<char>, i: int)
    ensures
        (exists|v: N, k: int| #[trigger] numeric(s, i) == SOut::Done(
            crate::grammar::at(s, i, SToken::Percentage(v)),
            k,
        )) <==> (number_at(s, i) is Done && char_at(s, number_at(s, i)->Done_1, '%')),
        number_at(s, i) is Done && char_at(s, number_at(s, i)->Done_1, '%') ==> numeric(s, i)
            == SOut::Done(
            crate::grammar::at(s, i, SToken::Percentage(number_at(s, i)->Done_0)),
            number_at(s, i)->Done_1 + 1,
        ),
{
}

/// Runs of class members end at the end of the text.
proof fn lemma_run_to_end(s: Seq<char>, j: int)
    requires
        0 <= j <= s.len(),
        forall|k: int| j <= k < s.len() ==> #[trigger] in_class(s[k], Class::DigitOrUnderscore),
    ensures
        run_end(s, j, Class::DigitOrUnderscore) == s.len(),
    decreases s.len() - j,
{
    if j < s.len() {
        lemma_run_to_end(s, j + 1);
    }
}

/// Digits and separators read as the digits alone.
proof fn lemma_strip(s: Seq<char>, to: int)
    requires
        0 <= to <= s.len(),
        forall|k: int| 0 <= k < to ==> #[trigger] in_class(s[k], Class::DigitOrUnderscore),
    ensures
        digits_value(s, 0, to, 0) == seq_value(strip_underscores(s.subrange(0, to))),
        digit_count(s, 0, to) == strip_underscores(s.subrange(0, to)).len(),
        forall|k: int|
            0 <= k < strip_underscores(s.subrange(0, to)).len() ==> #[trigger] is_digit(
                strip_underscores(s.subrange(0, to))[k],
            ),
    decreases to,
{
    if to > 0 {
        lemma_strip(s, to - 1);
        assert(s.subrange(0, to).subrange(0, to - 1) =~= s.subrange(0, to - 1));
        assert(in_class(s[to - 1], Class::DigitOrUnderscore));
        if s[to - 1] != '_' {
            let t = strip_underscores(s.subrange(0, to - 1));
            assert(t.push(s[to - 1]).subrange(0, t.len() as int) =~= t);
        }
    } else {
        assert(s.subrange(0, 0) =~= Seq::<char>::empty());
    }
}

/// Digit groups separated by `_` read as the same number as the digits
/// alone, and each text is read whole.
pub proof fn law_underscores(g: Seq<char>)
    requires
        grouped_digits(g),
    ensures
        whole_number(number_at(g, 0), g.len() as int) is Some,
        whole_number(number_at(g, 0), g.len() as int) == whole_number(
            number_at(strip_underscores(g), 0),
            strip_underscores(g).len() as int,
        ),
{
    let w = strip_underscores(g);
    let lg = g.len() as int;
    lemma_strip(g, lg);
    assert(g.subrange(0, lg) =~= g);
    lemma_run_to_end(g, 0);
    assert(is_digit(g[0]));
    assert(digit_count(g, 0, 0) == 0);
    assert(g[0] != '_');
    assert(digit_count(g, 0, 1) == 1);
    assert(digit_count(g, 0, lg) >= 1) by {
        lemma_count_monotone(g, 1, lg);
    }
    let lw = w.len() as int;
    assert(lw >= 1);
    assert forall|k: int| 0 <= k < lw implies #[trigger] in_class(w[k], Class::DigitOrUnderscore) by {
        assert(is_digit(w[k]));
    }
    lemma_run_to_end(w, 0);
    lemma_strip(w, lw);
    assert(w.subrange(0, lw) =~= w);
    assert(is_digit(w[0]));
    assert(!crate::number::letter_at(g, lg));
    assert(!crate::number::letter_at(w, lw));
    assert(crate::number::exponent_at(g, lg) is None);
    assert(crate::number::exponent_at(w, lw) is None);
    assert(strip_underscores(w) == w) by {
        lemma_strip_digits(w);
    }
}

/// Counting digits never goes down.
proof fn lemma_count_monotone(s: Seq<char>, mid: int, to: int)
    requires
        0 <= mid <= to,
    ensures
        digit_count(s, 0, to) >= digit_count(s, 0, mid),
    decreases to - mid,
{
    if to > mid {
        lemma_count_monotone(s, mid, to - 1);
    }
}

/// Digits alone have no separator to leave out.
proof fn lemma_strip_digits(w: Seq<char>)
    requires
        forall|k: int| 0 <= k < w.len() ==> #[trigger] is_digit(w[k]),
    ensures
        strip_underscores(w) == w,
    decreases w.len(),
{
    if w.len() > 0 {
        let t = w.subrange(0, w.len() - 1);
        assert forall|k: int| 0 <= k < t.len() implies #[trigger] is_digit(t[k]) by {
            assert(t[k] == w[k]);
        }
        lemma_strip_digits(t);
        assert(is_digit(w[w.len() - 1]));
        assert(t.push(w[w.len() - 1]) =~= w);
    }
}

/// Postfix accessors fold from the left: two accessors in a row apply to
/// the term in the order they are written, the second to the result of the
/// first.
pub proof fn law_postfix_left_assoc(
    s: Seq<char>,
    j: int,
    d: nat,
    acc: SNode,
    op1: SNode,
    x1: Option<SNode>,
    k1: int,
    op2: SNode,
    x2: Option<SNode>,
    k2: int,
)
    requires
        postfix(s, j, d) == SPost::Done(op1, x1, k1),
        postfix(s, k1, d) == SPost::Done(op2, x2, k2),
        postfix(s, k2, d) == SPost::Miss,
        j < k1 < k2 <= s.len(),
    ensures
        postfix_fold(s, j, d, acc) == SOut::Done(
            apply_postfix(apply_postfix(acc, op1, x1), op2, x2),
            k2,
        ),
{
    assert(postfix_fold(s, k2, d, apply_postfix(apply_postfix(acc, op1, x1), op2, x2))
        == SOut::Done(apply_postfix(apply_postfix(acc, op1, x1), op2, x2), k2));
    assert(postfix_fold(s, k1, d, apply_postfix(acc, op1, x1)) == postfix_fold(
        s,
        k2,
        d,
        apply_postfix(apply_postfix(acc, op1, x1), op2, x2),
    ));
}

/// `s` with one character in front.
pub open spec fn prefixed(c: char, s: Seq<char>) -> Seq<char> {
    seq![c] + s
}

proof fn lemma_shift_run(c: char, s: Seq<char>, k: int, cl: Class)
    requires
        0 <= k <= s.len(),
    ensures
        run_end(prefixed(c, s), k + 1, cl) == run_end(s, k, cl) + 1,
    decreases s.len() - k,
{
    if k < s.len() {
        assert(prefixed(c, s)[k + 1] == s[k]);
    }
    if k < s.len() && in_class(s[k], cl) {
        lemma_shift_run(c, s, k + 1, cl);
    }
}

proof fn lemma_shift_digits(c: char, s: Seq<char>, f: int, t: int, b: int)
    requires
        0 <= f <= t <= s.len(),
    ensures
        digits_value(prefixed(c, s), f + 1, t + 1, b) == digits_value(s, f, t, b),
        digit_count(prefixed(c, s), f + 1, t + 1) == digit_count(s, f, t),
    decreases t - f,
{
    if t > f {
        assert(prefixed(c, s)[t] == s[t - 1]);
        lemma_shift_digits(c, s, f, t - 1, b);
    }
}

proof fn lemma_shift_exponent(c: char, s: Seq<char>, k: int)
    requires
        0 <= k <= s.len(),
    ensures
        match exponent_at(s, k) {
            None => exponent_at(prefixed(c, s), k + 1) is None,
            Some((v, de)) => exponent_at(prefixed(c, s), k + 1) == Some((v, de + 1)),
        },
{
    let p = prefixed(c, s);
    assert forall|m: int| k <= m < s.len() implies #[trigger] p[m + 1] == s[m] by {}
    if k < s.len() {
        assert(p[k + 1] == s[k]);
    }
    if k + 1 < s.len() {
        assert(p[k + 2] == s[k + 1]);
    }
    let ds = exponent_digits_start(s, k);
    if (char_at(s, k, 'e') || char_at(s, k, 'E')) && ds <= s.len() {
        lemma_shift_run(c, s, ds, Class::DigitOrUnderscore);
        let de = run_end(s, ds, Class::DigitOrUnderscore);
        crate::number::lemma_run_members(s, ds, Class::DigitOrUnderscore);
        lemma_shift_digits(c, s, ds, de, 0);
        if ds < de {
            assert(p[ds + 1] == s[ds]);
            assert(p[de] == s[de - 1]);
        }
    }
}

/// A sign in front of an unsigned literal: `+` keeps its value, `-`
/// negates it, the exponent applied first.
pub proof fn law_sign(s: Seq<char>, v: N)
    requires
        s.len() > 0,
        is_digit(s[0]),
        number_at(s, 0) == Scanned::Done(v, s.len() as int),
    ensures
        number_at(prefixed('+', s), 0) == Scanned::Done(v, s.len() as int + 1),
        number_at(prefixed('-', s), 0) == Scanned::Done(v.spec_neg(), s.len() as int + 1),
{
    lemma_sign_one(s, v, '+');
    lemma_sign_one(s, v, '-');
}

#[verifier::rlimit(80)]
proof fn lemma_sign_one(s: Seq<char>, v: N, c: char)
    requires
        s.len() > 0,
        is_digit(s[0]),
        number_at(s, 0) == Scanned::Done(v, s.len() as int),
        c == '+' || c == '-',
    ensures
        number_at(prefixed(c, s), 0) == Scanned::Done(
            if c == '-' {
                v.spec_neg()
            } else {
                v
            },
            s.len() as int + 1,
        ),
{
    let p = prefixed(c, s);
    let len = s.len() as int;
    assert forall|m: int| 0 <= m < len implies #[trigger] p[m + 1] == s[m] by {}
    assert(p[0] == c);
    let neg = c == '-';
    assert(!char_at(s, 0, '-') && !char_at(s, 0, '+'));
    let e1 = run_end(s, 0, Class::DigitOrUnderscore);
    crate::number::lemma_run_members(s, 0, Class::DigitOrUnderscore);
    lemma_shift_run(c, s, 0, Class::DigitOrUnderscore);
    lemma_shift_digits(c, s, 0, e1, 0);
    if e1 > 0 {
        assert(p[1] == s[0]);
        assert(p[e1] == s[e1 - 1]);
    }
    if e1 < len {
        assert(p[e1 + 1] == s[e1]);
    }
    let frac = char_at(s, e1, '.') && run_end(s, e1 + 1, Class::DigitOrUnderscore) > e1 + 1;
    if char_at(s, e1, '.') {
        lemma_shift_run(c, s, e1 + 1, Class::DigitOrUnderscore);
        crate::number::lemma_run_members(s, e1 + 1, Class::DigitOrUnderscore);
    }
    let e2 = if frac {
        run_end(s, e1 + 1, Class::DigitOrUnderscore)
    } else {
        e1
    };
    if frac {
        lemma_shift_digits(c, s, e1 + 1, e2, digits_value(s, 0, e1, 0));
        assert(p[e1 + 2] == s[e1 + 1]);
        assert(p[e2] == s[e2 - 1]);
    }
    lemma_shift_exponent(c, s, e2);
    let end = match exponent_at(s, e2) {
        Some((_, de)) => de,
        None => e2,
    };
    assert(end == len);
    let whole = digits_value(s, 0, e1, 0);
    let m = if frac {
        digits_value(s, e1 + 1, e2, whole)
    } else {
        whole
    };
    let scale = if frac {
        digit_count(s, e1 + 1, e2)
    } else {
        0
    };
    assert(crate::number::digit_bounded(p, 1, e1 + 1));
    assert(!crate::number::letter_at(p, len + 1));
    let pe1 = run_end(p, 1, Class::DigitOrUnderscore);
    assert(pe1 == e1 + 1);
    assert(char_at(p, pe1, '.') == char_at(s, e1, '.'));
    let pfrac = char_at(p, pe1, '.') && run_end(p, pe1 + 1, Class::DigitOrUnderscore) > pe1 + 1;
    assert(pfrac == frac);
    let pe2 = if pfrac {
        run_end(p, pe1 + 1, Class::DigitOrUnderscore)
    } else {
        pe1
    };
    assert(pe2 == e2 + 1);
    assert(digits_value(p, 1, pe1, 0) == whole);
    if frac {
        assert(digits_value(p, pe1 + 1, pe2, whole) == m);
        assert(digit_count(p, pe1 + 1, pe2) == scale);
        assert(crate::number::digit_bounded(p, pe1 + 1, pe2));
    }
    crate::number::lemma_digits_monotone(s, 0, 0, e1, 0);
    if !frac {
        assert(0 <= m);
        let b = crate::number::mantissa_value(m, false, 0, false);
        assert(b == Some(N::Int(m as i64)));
        let sm: int = if neg {
            -m
        } else {
            m
        };
        assert(fits_i64(m));
        assert((sm as i64) as int == sm);
        assert(crate::number::mantissa_value(m, false, 0, neg) == Some(N::Int(sm as i64)));
        match exponent_at(s, e2) {
            None => {
                assert(v == N::Int(m as i64));
            },
            Some((None, _)) => {},
            Some((Some(e), de)) => {
                if e >= 0 {
                    let q = pow10(e as nat);
                    let x = m * q;
                    assert((-m) * q == -x) by (nonlinear_arith)
                        requires x == m * q;
                    assert(fits_i64(x));
                    crate::number::lemma_pow10_monotone(0, e as nat);
                    assert(x >= 0) by (nonlinear_arith)
                        requires m >= 0, q >= 1, x == m * q;
                    assert(fits_i64(sm * q));
                    assert(v == N::Int(x as i64));
                    assert(sm * q == if neg {
                        -x
                    } else {
                        x
                    });
                    assert(apply_exponent(N::Int(sm as i64), e) == Some(N::Int((if neg {
                        -x
                    } else {
                        x
                    }) as i64)));
                } else if -e <= 28 {
                    assert(v == dec(m, -e));
                    assert(apply_exponent(N::Int(sm as i64), e) == Some(dec(sm, -e)));
                } else {
                    assert(m == 0);
                    assert(sm == 0);
                }
            },
        }
    }
}

/// Digits followed at once by a letter other than an exponent marker are no
/// number, so that the text may be read as an identifier.
pub proof fn law_digits_then_letter(s: Seq<char>, k: int)
    requires
        0 < k < s.len(),
        forall|m: int| 0 <= m < k ==> #[trigger] is_digit(s[m]),
        crate::chars::is_ascii_letter(s[k]),
        s[k] != 'e' && s[k] != 'E',
    ensures
        number_at(s, 0) == Scanned::<int>::Miss,
{
    lemma_run_digits_to(s, 0, k);
    assert(!char_at(s, 0, '-') && !char_at(s, 0, '+')) by {
        assert(is_digit(s[0]));
    }
    assert(exponent_at(s, k) is None);
}

/// A run of digits ends at the first character that is neither a digit nor `_`.
proof fn lemma_run_digits_to(s: Seq<char>, j: int, e: int)
    requires
        0 <= j <= e < s.len(),
        forall|m: int| j <= m < e ==> #[trigger] is_digit(s[m]),
        !in_class(s[e], Class::DigitOrUnderscore),
    ensures
        run_end(s, j, Class::DigitOrUnderscore) == e,
    decreases e - j,
{
    if j < e {
        assert(is_digit(s[j]));
        lemma_run_digits_to(s, j + 1, e);
    }
}

/// Appending a character outside a class leaves the runs of the text alone.
proof fn lemma_append_run(s: Seq<char>, c: char, k: int, cl: Class)
    requires
        0 <= k <= s.len(),
        !in_class(c, cl),
    ensures
        run_end(s.push(c), k, cl) == run_end(s, k, cl),
    decreases s.len() - k,
{
    if k < s.len() {
        assert(s.push(c)[k] == s[k]);
        if in_class(s[k], cl) {
            lemma_append_run(s, c, k + 1, cl);
        }
    }
}

/// Appending a character leaves the digit values within the text alone.
proof fn lemma_append_digits(s: Seq<char>, c: char, f: int, t: int, b: int)
    requires
        0 <= f <= t <= s.len(),
    ensures
        digits_value(s.push(c), f, t, b) == digits_value(s, f, t, b),
        digit_count(s.push(c), f, t) == digit_count(s, f, t),
    decreases t - f,
{
    if t > f {
        assert(s.push(c)[t - 1] == s[t - 1]);
        lemma_append_digits(s, c, f, t - 1, b);
    }
}

/// A whole numeric literal followed at once by `%` is a percentage of the
/// same value, at the same place.
#[verifier::rlimit(80)]
pub proof fn law_whole_percentage(s: Seq<char>, v: N)
    requires
        number_at(s, 0) == Scanned::Done(v, s.len() as int),
    ensures
        crate::grammar::percentage(s.push('%'), 0) == SOut::Done(
            crate::grammar::at(s.push('%'), 0, SToken::Percentage(v)),
            s.len() as int + 1,
        ),
{
    let p = s.push('%');
    let len = s.len() as int;
    assert forall|m: int| 0 <= m < len implies #[trigger] p[m] == s[m] by {}
    assert(p[len] == '%');
    let neg = char_at(s, 0, '-');
    assert(char_at(p, 0, '-') == neg);
    assert(char_at(p, 0, '+') == char_at(s, 0, '+'));
    let j = if neg || char_at(s, 0, '+') {
        1int
    } else {
        0int
    };
    assert(j <= len);
    lemma_append_run(s, '%', j, Class::DigitOrUnderscore);
    let e1 = run_end(s, j, Class::DigitOrUnderscore);
    crate::number::lemma_run_members(s, j, Class::DigitOrUnderscore);
    assert(char_at(p, e1, '.') == char_at(s, e1, '.'));
    if char_at(s, e1, '.') {
        lemma_append_run(s, '%', e1 + 1, Class::DigitOrUnderscore);
        crate::number::lemma_run_members(s, e1 + 1, Class::DigitOrUnderscore);
    }
    let frac = char_at(s, e1, '.') && run_end(s, e1 + 1, Class::DigitOrUnderscore) > e1 + 1;
    let e2 = if frac {
        run_end(s, e1 + 1, Class::DigitOrUnderscore)
    } else {
        e1
    };
    lemma_append_digits(s, '%', j, e1, 0);
    if frac {
        lemma_append_digits(s, '%', e1 + 1, e2, digits_value(s, j, e1, 0));
    }
    if e1 > j {
        assert(p[j] == s[j] && p[e1 - 1] == s[e1 - 1]);
    }
    if frac {
        assert(p[e1 + 1] == s[e1 + 1] && p[e2 - 1] == s[e2 - 1]);
    }
    // The exponent reads the same.
    assert(char_at(p, e2, 'e') == char_at(s, e2, 'e'));
    assert(char_at(p, e2, 'E') == char_at(s, e2, 'E'));
    if char_at(s, e2, 'e') || char_at(s, e2, 'E') {
        assert(char_at(p, e2 + 1, '-') == char_at(s, e2 + 1, '-'));
        assert(char_at(p, e2 + 1, '+') == char_at(s, e2 + 1, '+'));
        let ds = exponent_digits_start(s, e2);
        if ds <= len {
            lemma_append_run(s, '%', ds, Class::DigitOrUnderscore);
            crate::number::lemma_run_members(s, ds, Class::DigitOrUnderscore);
            let de = run_end(s, ds, Class::DigitOrUnderscore);
            lemma_append_digits(s, '%', ds, de, 0);
            if de > ds {
                assert(p[ds] == s[ds] && p[de - 1] == s[de - 1]);
            }
        } else {
            assert(exponent_at(s, e2) is None);
            assert(exponent_at(p, e2) is None);
        }
    }
    assert(exponent_at(p, e2) == exponent_at(s, e2));
    assert(!crate::number::letter_at(p, len));
    assert(number_at(p, 0) == number_at(s, 0));
}

/// A run over members of a class reaches the end of the text.
proof fn lemma_run_class_to_end(s: Seq<char>, j: int, cl: Class)
    requires
        0 <= j <= s.len(),
        forall|k: int| j <= k < s.len() ==> #[trigger] in_class(s[k], cl),
    ensures
        run_end(s, j, cl) == s.len(),
    decreases s.len() - j,
{
    if j < s.len() {
        lemma_run_class_to_end(s, j + 1, cl);
    }
}

/// An ASCII identifier is read whole as the lower-case form of its text:
/// a letter or `_` followed by letters, digits, `_` and `-`, or one digit
/// followed by letters.
pub proof fn law_ascii_identifier(s: Seq<char>)
    requires
        s.len() > 0,
        crate::chars::ascii_text(s),
        ((crate::chars::is_ascii_letter(s[0]) || s[0] == '_') && forall|k: int|
            1 <= k < s.len() ==> (crate::chars::is_ascii_letter(#[trigger] s[k]) || is_digit(s[k])
                || s[k] == '_' || s[k] == '-')) || (is_digit(s[0]) && s.len() > 1 && forall|k: int|
            1 <= k < s.len() ==> crate::chars::is_ascii_letter(#[trigger] s[k])),
    ensures
        crate::grammar::identifier(s, 0) == SOut::Done(
            crate::grammar::at(s, 0, SToken::Identifier(crate::chars::lower_of(s))),
            s.len() as int,
        ),
{
    assert((s[0] as u32) < 128);
    assert forall|k: int| 1 <= k < s.len() implies (#[trigger] s[k] as u32) < 128 by {}
    if crate::chars::is_ascii_letter(s[0]) || s[0] == '_' {
        assert forall|k: int| 1 <= k < s.len() implies #[trigger] in_class(s[k], Class::IdentTail) by {
            assert((s[k] as u32) < 128);
        }
        lemma_run_class_to_end(s, 1, Class::IdentTail);
    } else {
        assert forall|k: int| 1 <= k < s.len() implies #[trigger] in_class(s[k], Class::Alpha) by {
            assert((s[k] as u32) < 128);
        }
        lemma_run_class_to_end(s, 1, Class::Alpha);
        assert(!crate::chars::is_letter(s[0]));
    }
    assert(s.subrange(0, s.len() as int) =~= s);
}

/// `acc` with the accessors `ops[0..]` (operands `xs`) applied in order.
pub open spec fn apply_all(acc: SNode, ops: Seq<SNode>, xs: Seq<Option<SNode>>) -> SNode
    decreases ops.len(),
{
    if ops.len() == 0 {
        acc
    } else {
        apply_all(apply_postfix(acc, ops[0], xs[0]), ops.drop_first(), xs.drop_first())
    }
}

/// Any number of postfix accessors fold from the left: when the accessor at
/// `pos[k]` ends at `pos[k + 1]` and none follows the last, the term is the
/// head with every accessor applied in the order written.
pub proof fn law_postfix_fold(
    s: Seq<char>,
    d: nat,
    acc: SNode,
    ops: Seq<SNode>,
    xs: Seq<Option<SNode>>,
    pos: Seq<int>,
)
    requires
        xs.len() == ops.len(),
        pos.len() == ops.len() + 1,
        forall|k: int|
            0 <= k < ops.len() ==> #[trigger] postfix(s, pos[k], d) == SPost::Done(
                ops[k],
                xs[k],
                pos[k + 1],
            ) && pos[k] < pos[k + 1] <= s.len(),
        postfix(s, pos[ops.len() as int], d) == SPost::Miss,
    ensures
        postfix_fold(s, pos[0], d, acc) == SOut::Done(
            apply_all(acc, ops, xs),
            pos[ops.len() as int],
        ),
    decreases ops.len(),
{
    if ops.len() > 0 {
        assert(postfix(s, pos[0], d) == SPost::Done(ops[0], xs[0], pos[1]));
        let ops2 = ops.drop_first();
        let xs2 = xs.drop_first();
        let pos2 = pos.drop_first();
        assert forall|k: int| 0 <= k < ops2.len() implies #[trigger] postfix(s, pos2[k], d)
            == SPost::Done(ops2[k], xs2[k], pos2[k + 1]) && pos2[k] < pos2[k + 1] <= s.len() by {
            assert(postfix(s, pos[k + 1], d) == SPost::Done(ops[k + 1], xs[k + 1], pos[k + 2]));
        }
        assert(pos2[ops2.len() as int] == pos[ops.len() as int]);
        law_postfix_fold(s, d, apply_postfix(acc, ops[0], xs[0]), ops2, xs2, pos2);
    }
}

/// A trailing `...` spreads the last argument: the arguments keep their
/// number and order, and only the last is wrapped in an `Elipsis` operation
/// at its own position; without `...` the arguments stay as they are.
pub proof fn law_spread_last(s: Seq<char>, args: Seq<SNode>, e: int)
    requires
        args.len() > 0,
    ensures
        crate::chars::exact_at(s, e, "..."@) ==> {
            let (ys, e2) = crate::grammar::spread_last(s, args, e);
            &&& ys.len() == args.len()
            &&& e2 == e + 3
            &&& forall|k: int| 0 <= k < args.len() - 1 ==> #[trigger] ys[k] == args[k]
            &&& ys[args.len() - 1] == crate::grammar::like(
                args[args.len() - 1],
                SToken::UnaryOp(
                    Box::new(crate::grammar::op_at(s, e, crate::ast::Operator::Elipsis)),
                    Box::new(args[args.len() - 1]),
                ),
            )
        },
        !crate::chars::exact_at(s, e, "..."@) ==> crate::grammar::spread_last(s, args, e) == (args, e),
{
}

} // verus!
