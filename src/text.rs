//! The decimal text of numbers, as serialized, and the laws that tie it to
//! the numeric literal: a rendered number reads back as itself.
use vstd::prelude::*;
use crate::chars::{Class, in_class, is_digit, push_char, run_end};
use crate::number::{
    Decimal, MANTISSA_LIMIT, MAX_SCALE, N, Scanned, apply_exponent, dec, digit_count, fits_i64,
    digits_value, from_text, integer_digits_start, is_integer_text, lemma_pow10_monotone,
    number_at, pow10,
};

verus! {

/// The digit character for `d` in `0..10`.
pub open spec fn digit_char(d: int) -> char {
    if d == 0 {
        '0'
    } else if d == 1 {
        '1'
    } else if d == 2 {
        '2'
    } else if d == 3 {
        '3'
    } else if d == 4 {
        '4'
    } else if d == 5 {
        '5'
    } else if d == 6 {
        '6'
    } else if d == 7 {
        '7'
    } else if d == 8 {
        '8'
    } else {
        '9'
    }
}

/// The decimal digits of `v`, without leading zeros.
pub open spec fn int_text(v: nat) -> Seq<char>
    decreases v,
{
    if v < 10 {
        seq![digit_char(v as int)]
    } else {
        int_text(v / 10).push(digit_char((v % 10) as int))
    }
}

/// The last `w` decimal digits of `v`, zero-padded.
pub open spec fn pad_text(v: nat, w: nat) -> Seq<char>
    decreases w,
{
    if w == 0 {
        Seq::empty()
    } else {
        pad_text(v / 10, (w - 1) as nat).push(digit_char((v % 10) as int))
    }
}

/// The text of an integer: `-` when negative, then its digits.
pub open spec fn integer_text(n: int) -> Seq<char> {
    if n < 0 {
        seq!['-'] + int_text((-n) as nat)
    } else {
        int_text(n as nat)
    }
}

/// The magnitude of a decimal's mantissa.
pub open spec fn magnitude(d: Decimal) -> nat {
    if d.mantissa < 0 {
        (-d.mantissa) as nat
    } else {
        d.mantissa as nat
    }
}

/// The unsigned text of a decimal: integer digits, then `.` and exactly
/// `scale` fractional digits when the scale is not zero.
pub open spec fn unsigned_decimal_text(d: Decimal) -> Seq<char> {
    let p = pow10(d.scale as nat);
    if d.scale == 0 {
        int_text(magnitude(d))
    } else {
        int_text(magnitude(d) / (p as nat)) + seq!['.'] + pad_text(magnitude(d) % (p as nat), d.scale as nat)
    }
}

/// The text of a decimal, its scale kept: `1.00` stays `1.00`.
pub open spec fn decimal_text(d: Decimal) -> Seq<char> {
    if d.mantissa < 0 {
        seq!['-'] + unsigned_decimal_text(d)
    } else {
        unsigned_decimal_text(d)
    }
}

/// The text of a number.
pub open spec fn n_text(n: N) -> Seq<char> {
    match n {
        N::Int(i) => integer_text(i as int),
        N::Decimal(d) => decimal_text(d),
    }
}

/// The value of a text of digits.
pub open spec fn seq_value(t: Seq<char>) -> int
    decreases t.len(),
{
    if t.len() == 0 {
        0
    } else {
        seq_value(t.subrange(0, t.len() - 1)) * 10 + (t[t.len() - 1] as int - '0' as int)
    }
}

/// Every character is a digit.
pub open spec fn all_digits(t: Seq<char>) -> bool {
    forall|k: int| 0 <= k < t.len() ==> #[trigger] is_digit(t[k])
}

/// The digit character of `v`.
fn digit(v: u128) -> (r: char)
    requires
        v < 10,
    ensures
        r == digit_char(v as int),
{
    if v == 0 {
        '0'
    } else if v == 1 {
        '1'
    } else if v == 2 {
        '2'
    } else if v == 3 {
        '3'
    } else if v == 4 {
        '4'
    } else if v == 5 {
        '5'
    } else if v == 6 {
        '6'
    } else if v == 7 {
        '7'
    } else if v == 8 {
        '8'
    } else {
        '9'
    }
}

/// Appends the digits of `v`.
fn push_int_text(out: &mut String, v: u128)
    ensures
        final(out)@ == old(out)@ + int_text(v as nat),
    decreases v,
{
    if v >= 10 {
        push_int_text(out, v / 10);
    }
    push_char(out, digit(v % 10));
    proof {
        if v >= 10 {
            assert(old(out)@ + int_text(v as nat) =~= old(out)@ + int_text((v / 10) as nat) + seq![
                digit_char((v % 10) as int),
            ]);
        } else {
            assert(old(out)@ + int_text(v as nat) =~= old(out)@.push(digit_char(v as int)));
        }
    }
}

/// Appends the last `w` digits of `v`, zero-padded.
fn push_pad_text(out: &mut String, v: u128, w: u32)
    ensures
        final(out)@ == old(out)@ + pad_text(v as nat, w as nat),
    decreases w,
{
    if w == 0 {
        assert(old(out)@ + pad_text(v as nat, 0) =~= old(out)@);
        return;
    }
    push_pad_text(out, v / 10, w - 1);
    push_char(out, digit(v % 10));
    assert(old(out)@ + pad_text(v as nat, w as nat) =~= old(out)@ + pad_text(
        (v / 10) as nat,
        (w - 1) as nat,
    ) + seq![digit_char((v % 10) as int)]);
}

/// `10^e` for the scales of a decimal.
fn pow10_u128(e: u32) -> (r: u128)
    requires
        e <= MAX_SCALE,
    ensures
        r == pow10(e as nat),
        r >= 1,
{
    let mut r: u128 = 1;
    let mut k: u32 = 0;
    while k < e
        invariant
            k <= e <= MAX_SCALE,
            r == pow10(k as nat),
        decreases e - k,
    {
        proof {
            lemma_pow10_monotone((k + 1) as nat, 28);
            reveal_with_fuel(pow10, 30);
        }
        r = r * 10;
        k = k + 1;
    }
    proof {
        lemma_pow10_monotone(k as nat, k as nat);
    }
    r
}

impl Decimal {
    /// The text of the decimal, its scale kept.
    pub fn to_text(&self) -> (r: String)
        requires
            self.wf(),
        ensures
            r@ == decimal_text(*self),
    {
        let mut out = String::new();
        let a: u128 = if self.mantissa < 0 {
            push_char(&mut out, '-');
            (-self.mantissa) as u128
        } else {
            self.mantissa as u128
        };
        if self.scale == 0 {
            push_int_text(&mut out, a);
        } else {
            let p = pow10_u128(self.scale);
            push_int_text(&mut out, a / p);
            push_char(&mut out, '.');
            push_pad_text(&mut out, a % p, self.scale);
        }
        assert(out@ =~= decimal_text(*self));
        out
    }
}

impl N {
    /// The text of the number, as it is serialized.
    pub fn to_text(&self) -> (r: String)
        requires
            self.wf(),
        ensures
            r@ == n_text(*self),
    {
        match self {
            N::Int(i) => {
                let mut out = String::new();
                if *i < 0 {
                    push_char(&mut out, '-');
                    push_int_text(&mut out, (-(*i as i128)) as u128);
                } else {
                    push_int_text(&mut out, *i as u128);
                }
                assert(out@ =~= n_text(*self));
                out
            },
            N::Decimal(d) => d.to_text(),
        }
    }

    /// The name of the variant, as it is serialized: `int` or `decimal`.
    pub fn kind(&self) -> (r: &'static str)
        ensures
            r@ == (match *self {
                N::Int(_) => "int"@,
                N::Decimal(_) => "decimal"@,
            }),
    {
        match self {
            N::Int(_) => "int",
            N::Decimal(_) => "decimal",
        }
    }
}

/// A digit character is a digit of its value.
proof fn lemma_digit_char(d: int)
    requires
        0 <= d < 10,
    ensures
        is_digit(digit_char(d)),
        digit_char(d) as int - '0' as int == d,
{
}

/// The value of a text with one more digit.
proof fn lemma_seq_value_push(t: Seq<char>, c: char)
    ensures
        seq_value(t.push(c)) == seq_value(t) * 10 + (c as int - '0' as int),
{
    assert(t.push(c).subrange(0, t.len() as int) =~= t);
}

/// The digits of `v` read back as `v`.
pub proof fn lemma_int_text(v: nat)
    ensures
        all_digits(int_text(v)),
        int_text(v).len() >= 1,
        seq_value(int_text(v)) == v,
    decreases v,
{
    if v < 10 {
        lemma_digit_char(v as int);
        lemma_seq_value_push(Seq::empty(), digit_char(v as int));
        assert(seq![digit_char(v as int)] =~= Seq::<char>::empty().push(digit_char(v as int)));
    } else {
        lemma_int_text(v / 10);
        lemma_digit_char((v % 10) as int);
        lemma_seq_value_push(int_text(v / 10), digit_char((v % 10) as int));
    }
}

/// The padded digits of `v` read back as `v` when it has at most `w` digits.
pub proof fn lemma_pad_text(v: nat, w: nat)
    requires
        v < pow10(w),
    ensures
        all_digits(pad_text(v, w)),
        pad_text(v, w).len() == w,
        seq_value(pad_text(v, w)) == v,
    decreases w,
{
    if w > 0 {
        assert(v / 10 < pow10((w - 1) as nat));
        lemma_pad_text(v / 10, (w - 1) as nat);
        lemma_digit_char((v % 10) as int);
        lemma_seq_value_push(pad_text(v / 10, (w - 1) as nat), digit_char((v % 10) as int));
    }
}

/// Digits in `s[from..to]` read as `base` followed by them.
proof fn lemma_digits_value(s: Seq<char>, from: int, to: int, base: int)
    requires
        0 <= from <= to <= s.len(),
        forall|k: int| from <= k < to ==> #[trigger] is_digit(s[k]),
    ensures
        digits_value(s, from, to, base) == base * pow10((to - from) as nat) + seq_value(
            s.subrange(from, to),
        ),
        digit_count(s, from, to) == to - from,
    decreases to - from,
{
    if to > from {
        lemma_digits_value(s, from, to - 1, base);
        assert(is_digit(s[to - 1]));
        assert(s.subrange(from, to) =~= s.subrange(from, to - 1).push(s[to - 1]));
        lemma_seq_value_push(s.subrange(from, to - 1), s[to - 1]);
        let p = pow10((to - 1 - from) as nat);
        let x = seq_value(s.subrange(from, to - 1));
        assert((base * p + x) * 10 == base * (10 * p) + x * 10) by (nonlinear_arith);
    } else {
        assert(s.subrange(from, to) =~= Seq::<char>::empty());
    }
}

/// A run of digits ends where the digits do.
proof fn lemma_run_digits(s: Seq<char>, j: int, e: int)
    requires
        0 <= j <= e <= s.len(),
        forall|k: int| j <= k < e ==> #[trigger] is_digit(s[k]),
        e == s.len() || !in_class(s[e], Class::DigitOrUnderscore),
    ensures
        run_end(s, j, Class::DigitOrUnderscore) == e,
    decreases e - j,
{
    if j < e {
        assert(is_digit(s[j]));
        lemma_run_digits(s, j + 1, e);
    }
}

/// The text of every integer reads back as that integer; with `.0`
/// appended it reads back as the decimal with one fractional zero.
pub proof fn lemma_integer_text(n: i64)
    ensures
        number_at(integer_text(n as int), 0) == Scanned::Done(
            N::Int(n),
            integer_text(n as int).len() as int,
        ),
        number_at(integer_text(n as int) + seq!['.', '0'], 0) == Scanned::Done(
            dec(n * 10, 1),
            integer_text(n as int).len() as int + 2,
        ),
{
    let a: nat = if n < 0 {
        (-n) as nat
    } else {
        n as nat
    };
    let s = integer_text(n as int);
    let j: int = if n < 0 {
        1
    } else {
        0
    };
    lemma_int_text(a);
    assert(s.subrange(j, s.len() as int) =~= int_text(a));
    assert forall|k: int| j <= k < s.len() implies #[trigger] is_digit(s[k]) by {
        assert(s[k] == int_text(a)[k - j]);
    }
    // The integer alone.
    lemma_run_digits(s, j, s.len() as int);
    lemma_digits_value(s, j, s.len() as int, 0);
    assert(pow10(0) == 1);
    assert(s[0] == '-' <==> n < 0) by {
        if n >= 0 {
            assert(is_digit(int_text(a)[0]));
        }
    }
    assert(crate::number::digit_bounded(s, j, s.len() as int));
    assert(crate::number::exponent_at(s, s.len() as int) is None);
    assert(!crate::number::letter_at(s, s.len() as int));
    assert(crate::number::mantissa_value(a as int, false, 0, n < 0) == Some(N::Int(n)));
    assert(number_at(s, 0) == Scanned::Done(N::Int(n), s.len() as int));
    // With a fractional zero.
    let s2 = s + seq!['.', '0'];
    let len = s.len() as int;
    assert forall|k: int| j <= k < len implies #[trigger] is_digit(s2[k]) by {
        assert(s2[k] == s[k]);
    }
    assert(s2[len] == '.');
    assert(s2[len + 1] == '0');
    lemma_run_digits(s2, j, len);
    lemma_run_digits(s2, len + 1, len + 2);
    lemma_digits_value(s2, j, len, 0);
    lemma_digits_value(s2, len + 1, len + 2, a as int);
    assert(s2.subrange(j, len) =~= s.subrange(j, len));
    assert(s2.subrange(len + 1, len + 2) =~= seq!['0']);
    lemma_seq_value_push(Seq::empty(), '0');
    assert(seq!['0'] =~= Seq::<char>::empty().push('0'));
    assert(pow10(1) == 10) by {
        reveal_with_fuel(pow10, 2);
    }
    assert(s2[0] == s[0]);
    assert(run_end(s2, j, Class::DigitOrUnderscore) == len);
    assert(run_end(s2, len + 1, Class::DigitOrUnderscore) == len + 2);
    assert(digits_value(s2, j, len, 0) == a);
    assert(digits_value(s2, len + 1, len + 2, a as int) == a * 10);
    assert(digit_count(s2, len + 1, len + 2) == 1);
    assert(crate::number::digit_bounded(s2, j, len));
    assert(crate::number::digit_bounded(s2, len + 1, len + 2));
    assert(a * 10 < MANTISSA_LIMIT);
    assert(crate::number::mantissa_value(a * 10 as int, true, 1, n < 0) == Some(dec(a * 10 as int, 1)));
    assert(!crate::number::letter_at(s2, len + 2));
    assert(crate::number::exponent_at(s2, len + 2) is None);
    if n < 0 {
        assert(dec(a * 10 as int, 1).spec_neg() == dec(n * 10, 1));
    }
}

/// The digits of `u` from `j` on, where `s` holds `u` from `j`.
proof fn lemma_tail_chars(s: Seq<char>, j: int, u: Seq<char>, from: int, to: int)
    requires
        0 <= j <= s.len(),
        s.subrange(j, s.len() as int) == u,
        0 <= from <= to <= u.len(),
        forall|k: int| from <= k < to ==> #[trigger] is_digit(u[k]),
    ensures
        forall|k: int| j + from <= k < j + to ==> #[trigger] is_digit(s[k]),
{
    assert forall|k: int| j + from <= k < j + to implies #[trigger] is_digit(s[k]) by {
        assert(s.subrange(j, s.len() as int)[k - j] == s[k]);
        assert(is_digit(u[k - j]));
    }
}

/// The text of a decimal reads back as the same digits: with a fraction,
/// as the decimal itself, scale kept; without one, as that integer when it
/// fits an `i64`, and as a failure when it does not.
pub proof fn lemma_decimal_text(d: Decimal)
    requires
        d.wf(),
    ensures
        d.scale > 0 ==> number_at(decimal_text(d), 0) == Scanned::Done(
            N::Decimal(d),
            decimal_text(d).len() as int,
        ),
        d.scale == 0 && fits_i64(d.mantissa as int) ==> number_at(decimal_text(d), 0)
            == Scanned::Done(N::Int(d.mantissa as i64), decimal_text(d).len() as int),
        d.scale == 0 && !fits_i64(d.mantissa as int) ==> number_at(decimal_text(d), 0)
            == Scanned::<int>::Fail,
{
    if d.scale == 0 {
        lemma_integral_decimal_text(d);
    } else {
        lemma_fractional_decimal_text(d);
    }
}

/// The text of a decimal of scale zero reads back as its integer, or fails.
#[verifier::rlimit(60)]
proof fn lemma_integral_decimal_text(d: Decimal)
    requires
        d.wf(),
        d.scale == 0,
    ensures
        fits_i64(d.mantissa as int) ==> number_at(decimal_text(d), 0) == Scanned::Done(
            N::Int(d.mantissa as i64),
            decimal_text(d).len() as int,
        ),
        !fits_i64(d.mantissa as int) ==> number_at(decimal_text(d), 0) == Scanned::<int>::Fail,
{
    let a = magnitude(d);
    let sc = d.scale as nat;
    let p = pow10(sc);
    let s = decimal_text(d);
    let u = unsigned_decimal_text(d);
    let neg = d.mantissa < 0;
    let j: int = if neg {
        1
    } else {
        0
    };
    let len = s.len() as int;
    assert(s.subrange(j, len) =~= u);
    lemma_pow10_monotone(0, sc);
    assert(pow10(0) == 1);
    lemma_int_text(a);
    lemma_tail_chars(s, j, u, 0, u.len() as int);
    lemma_run_digits(s, j, len);
    lemma_digits_value(s, j, len, 0);
    assert(s[0] == '-' <==> neg) by {
        if !neg {
            assert(is_digit(u[0]));
        }
    }
    assert(digits_value(s, j, len, 0) == a);
    assert(crate::number::digit_bounded(s, j, len));
    assert(!crate::number::letter_at(s, len));
    assert(crate::number::exponent_at(s, len) is None);
}

/// The text of a decimal with a fraction reads back as that decimal.
#[verifier::rlimit(60)]
proof fn lemma_fractional_decimal_text(d: Decimal)
    requires
        d.wf(),
        d.scale > 0,
    ensures
        number_at(decimal_text(d), 0) == Scanned::Done(N::Decimal(d), decimal_text(d).len() as int),
{
    let a = magnitude(d);
    let sc = d.scale as nat;
    let p = pow10(sc);
    let s = decimal_text(d);
    let u = unsigned_decimal_text(d);
    let neg = d.mantissa < 0;
    let j: int = if neg {
        1
    } else {
        0
    };
    let len = s.len() as int;
    assert(s.subrange(j, len) =~= u);
    lemma_pow10_monotone(0, sc);
    assert(pow10(0) == 1);
    let q: nat = a / (p as nat);
    let r: nat = a % (p as nat);
    vstd::arithmetic::div_mod::lemma_fundamental_div_mod(a as int, p);
    lemma_int_text(q);
    lemma_pad_text(r, sc);
    let lq = int_text(q).len() as int;
    assert(u == int_text(q) + seq!['.'] + pad_text(r, sc));
    assert(u.len() == lq + 1 + sc);
    assert forall|k: int| 0 <= k < lq implies #[trigger] is_digit(u[k]) by {
        assert(u[k] == int_text(q)[k]);
    }
    assert forall|k: int| lq + 1 <= k < u.len() implies #[trigger] is_digit(u[k]) by {
        assert(u[k] == pad_text(r, sc)[k - lq - 1]);
    }
    lemma_tail_chars(s, j, u, 0, lq);
    lemma_tail_chars(s, j, u, lq + 1, u.len() as int);
    assert(s[j + lq] == u[lq]);
    assert(u[lq] == '.');
    lemma_run_digits(s, j, j + lq);
    lemma_run_digits(s, j + lq + 1, len);
    lemma_digits_value(s, j, j + lq, 0);
    lemma_digits_value(s, j + lq + 1, len, q as int);
    assert(s.subrange(j, j + lq) =~= int_text(q));
    assert(s.subrange(j + lq + 1, len) =~= pad_text(r, sc));
    assert(digits_value(s, j, j + lq, 0) == q);
    assert(q * p + r == a) by (nonlinear_arith)
        requires a == p * q + r;
    assert(digits_value(s, j + lq + 1, len, q as int) == a);
    assert(digit_count(s, j + lq + 1, len) == sc);
    assert(crate::number::digit_bounded(s, j, j + lq));
    assert(crate::number::digit_bounded(s, j + lq + 1, len));
    assert(s[0] == '-' <==> neg) by {
        if !neg {
            assert(is_digit(u[0]));
        }
    }
    assert(!crate::number::letter_at(s, len));
    assert(crate::number::exponent_at(s, len) is None);
}

/// The serialized text of a decimal reads back through `from_text` with the
/// same digits: as the decimal itself, or, for a scale of zero and a value
/// that fits an `i64`, as that integer, whose text is the same.
pub proof fn law_from_text_round_trip(d: Decimal)
    requires
        d.wf(),
    ensures
        from_text(decimal_text(d)) == Some(
            if d.scale == 0 && fits_i64(d.mantissa as int) {
                N::Int(d.mantissa as i64)
            } else {
                N::Decimal(d)
            },
        ),
        n_text(from_text(decimal_text(d))->0) == decimal_text(d),
{
    lemma_decimal_text(d);
    let s = decimal_text(d);
    let a = magnitude(d);
    if d.scale == 0 {
        let neg = d.mantissa < 0;
        let j: int = if neg {
            1
        } else {
            0
        };
        let u = unsigned_decimal_text(d);
        assert(u == int_text(a));
        lemma_int_text(a);
        assert(s.subrange(j, s.len() as int) =~= u);
        assert(s[0] == '-' <==> neg) by {
            if !neg {
                assert(is_digit(u[0]));
            }
        }
        assert(integer_digits_start(s) == j);
        lemma_tail_chars(s, j, u, 0, u.len() as int);
        if fits_i64(d.mantissa as int) {
            assert(integer_text(d.mantissa as int) =~= s);
        } else {
            assert(is_integer_text(s));
            lemma_digits_value(s, j, s.len() as int, 0);
            assert(pow10(0) == 1);
            assert(digits_value(s, j, s.len() as int, 0) == a);
            assert(dec(
                if j == 1 {
                    -(a as int)
                } else {
                    a as int
                },
                0,
            ) == N::Decimal(d));
        }
    }
}

/// An integer literal with an exponent reads as the integer scaled by the
/// exponent: an integer for a non-negative exponent when it fits, a decimal
/// for a negative one.
#[verifier::rlimit(80)]
pub proof fn law_integer_exponent_text(i: i64, e: nat, negative: bool)
    requires
        e <= i64::MAX,
    ensures
        ({
            let t = integer_text(i as int) + (if negative {
                seq!['e', '-']
            } else {
                seq!['e']
            }) + int_text(e);
            let x = if negative {
                -(e as int)
            } else {
                e as int
            };
            number_at(t, 0) == match apply_exponent(N::Int(i), x) {
                Some(v) => Scanned::Done(v, t.len() as int),
                None => Scanned::<int>::Fail,
            }
        }),
{
    let a: nat = if i < 0 {
        (-i) as nat
    } else {
        i as nat
    };
    let it = integer_text(i as int);
    let mark = if negative {
        seq!['e', '-']
    } else {
        seq!['e']
    };
    let t = it + mark + int_text(e);
    let j: int = if i < 0 {
        1
    } else {
        0
    };
    let l1 = it.len() as int;
    let ds = l1 + mark.len();
    let len = t.len() as int;
    lemma_int_text(a);
    lemma_int_text(e);
    assert(it.subrange(j, l1) =~= int_text(a));
    assert forall|k: int| j <= k < l1 implies #[trigger] is_digit(t[k]) by {
        assert(t[k] == it[k]);
        assert(it[k] == int_text(a)[k - j]);
    }
    assert forall|k: int| ds <= k < len implies #[trigger] is_digit(t[k]) by {
        assert(t[k] == int_text(e)[k - ds]);
    }
    assert(t[l1] == 'e');
    if negative {
        assert(t[l1 + 1] == '-');
    } else {
        assert(is_digit(t[l1 + 1]));
    }
    assert(t[0] == '-' <==> i < 0) by {
        if i >= 0 {
            assert(t[0] == int_text(a)[0]);
            assert(is_digit(int_text(a)[0]));
        } else {
            assert(t[0] == it[0]);
        }
    }
    lemma_run_digits(t, j, l1);
    lemma_run_digits(t, ds, len);
    lemma_digits_value(t, j, l1, 0);
    lemma_digits_value(t, ds, len, 0);
    assert(t.subrange(j, l1) =~= int_text(a));
    assert(t.subrange(ds, len) =~= int_text(e));
    assert(pow10(0) == 1);
    assert(digits_value(t, j, l1, 0) == a);
    assert(digits_value(t, ds, len, 0) == e);
    assert(crate::number::digit_bounded(t, j, l1));
    assert(crate::number::digit_bounded(t, ds, len));
    assert(crate::number::exponent_digits_start(t, l1) == ds);
    assert(crate::number::exponent_at(t, l1) == Some((
        Some(
            if negative {
                -(e as int)
            } else {
                e as int
            },
        ),
        len,
    )));
    assert(!crate::number::letter_at(t, len));
    let sm: int = if i < 0 {
        -(a as int)
    } else {
        a as int
    };
    assert(sm == i);
    assert(crate::number::mantissa_value(a as int, false, 0, i < 0) == Some(N::Int(i)));
}

} // verus!
