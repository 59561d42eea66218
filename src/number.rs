//! Exact numbers: integers and fixed-point decimals, and the numeric literal
//! that denotes them.
use vstd::prelude::*;
use crate::source::MAX_CHARS;
use crate::chars::{Class, in_class, is_ascii_letter, is_digit, run_end, char_at, scan, has_char};

verus! {

/// Bound on the magnitude of a decimal's mantissa (exclusive): 2^96.
pub const MANTISSA_LIMIT: u128 = 0x1_0000_0000_0000_0000_0000_0000;

/// Largest scale of a decimal.
pub const MAX_SCALE: u32 = 28;

/// A fixed-point decimal: `mantissa / 10^scale`.
#[derive(Clone, Copy, Debug, PartialEq, Eq)]
pub struct Decimal {
    pub mantissa: i128,
    pub scale: u32,
}

impl Decimal {
    /// The mantissa fits 96 bits and the scale is at most 28.
    pub open spec fn wf(&self) -> bool {
        -(MANTISSA_LIMIT as int) < self.mantissa < MANTISSA_LIMIT as int && self.scale <= MAX_SCALE
    }
}

/// A numeric value: an exact integer or a decimal.
#[derive(Clone, Copy, Debug, PartialEq, Eq)]
pub enum N {
    Int(i64),
    Decimal(Decimal),
}

/// `10^e`.
pub open spec fn pow10(e: nat) -> int
    decreases e,
{
    if e == 0 {
        1
    } else {
        10 * pow10((e - 1) as nat)
    }
}

/// Whether `v` is an `i64`.
pub open spec fn fits_i64(v: int) -> bool {
    i64::MIN <= v <= i64::MAX
}

/// Whether `v` fits a decimal's mantissa.
pub open spec fn fits_mantissa(v: int) -> bool {
    -(MANTISSA_LIMIT as int) < v < MANTISSA_LIMIT as int
}

/// A decimal from its parts.
pub open spec fn dec(m: int, scale: int) -> N {
    N::Decimal(Decimal { mantissa: m as i128, scale: scale as u32 })
}

impl N {
    /// The value is well formed.
    pub open spec fn wf(&self) -> bool {
        match self {
            N::Int(_) => true,
            N::Decimal(d) => d.wf(),
        }
    }

    /// The negated value.
    pub open spec fn spec_neg(self) -> N {
        match self {
            N::Int(i) => N::Int((-i) as i64),
            N::Decimal(d) => dec(-d.mantissa, d.scale as int),
        }
    }

    /// Whether this is an integer.
    pub fn is_int(&self) -> (r: bool)
        ensures
            r == (*self is Int),
    {
        match self {
            N::Int(_) => true,
            N::Decimal(_) => false,
        }
    }

    /// Whether this is a decimal.
    pub fn is_decimal(&self) -> (r: bool)
        ensures
            r == (*self is Decimal),
    {
        match self {
            N::Int(_) => false,
            N::Decimal(_) => true,
        }
    }

    /// The integer, if this is one.
    pub fn as_int(&self) -> (r: Option<i64>)
        ensures
            r == (match *self {
                N::Int(i) => Some(i),
                N::Decimal(_) => None,
            }),
    {
        match self {
            N::Int(i) => Some(*i),
            N::Decimal(_) => None,
        }
    }

    /// The decimal, if this is one.
    pub fn as_decimal(&self) -> (r: Option<Decimal>)
        ensures
            r == (match *self {
                N::Int(_) => None,
                N::Decimal(d) => Some(d),
            }),
    {
        match self {
            N::Int(_) => None,
            N::Decimal(d) => Some(*d),
        }
    }

    /// The value with the opposite sign.
    pub fn negate(&self) -> (r: N)
        requires
            self.wf(),
            *self != N::Int(i64::MIN),
        ensures
            r == self.spec_neg(),
            r.wf(),
    {
        match self {
            N::Int(i) => N::Int(-*i),
            N::Decimal(d) => N::Decimal(Decimal { mantissa: -d.mantissa, scale: d.scale }),
        }
    }
}

impl From<i64> for N {
    fn from(i: i64) -> (r: N)
        ensures
            r == N::Int(i),
    {
        N::Int(i)
    }
}

impl vstd::std_specs::convert::FromSpecImpl<i64> for N {
    open spec fn obeys_from_spec() -> bool {
        true
    }

    open spec fn from_spec(i: i64) -> N {
        N::Int(i)
    }
}

/// The value of the digits of `s[from..to]`, ignoring `_`, written after the
/// digits of `base`.
pub open spec fn digits_value(s: Seq<char>, from: int, to: int, base: int) -> int
    decreases to - from,
{
    if to <= from {
        base
    } else if s[to - 1] == '_' {
        digits_value(s, from, to - 1, base)
    } else {
        digits_value(s, from, to - 1, base) * 10 + (s[to - 1] as int - '0' as int)
    }
}

/// The number of digits (not `_`) in `s[from..to]`.
pub open spec fn digit_count(s: Seq<char>, from: int, to: int) -> int
    decreases to - from,
{
    if to <= from {
        0
    } else if s[to - 1] == '_' {
        digit_count(s, from, to - 1)
    } else {
        digit_count(s, from, to - 1) + 1
    }
}

/// The outcome of scanning a numeric literal: its value and end, no match,
/// or a literal whose value cannot be represented.
pub enum Scanned<P> {
    Done(N, P),
    Miss,
    Fail,
}

/// An exec scan outcome as positions of the spec.
pub open spec fn scanned_view(r: Scanned<usize>) -> Scanned<int> {
    match r {
        Scanned::Done(n, p) => Scanned::Done(n, p as int),
        Scanned::Miss => Scanned::Miss,
        Scanned::Fail => Scanned::Fail,
    }
}

/// The value of the digits before any exponent: without a fraction, the
/// signed integer when it fits an `i64`; with one, the unsigned decimal when
/// its mantissa and scale fit.
pub open spec fn mantissa_value(m: int, frac: bool, scale: int, neg: bool) -> Option<N> {
    if !frac {
        let v = if neg {
            -m
        } else {
            m
        };
        if fits_i64(v) {
            Some(N::Int(v as i64))
        } else {
            None
        }
    } else if m < MANTISSA_LIMIT as int && scale <= MAX_SCALE {
        Some(dec(m, scale))
    } else {
        None
    }
}

/// The value times `10^e` (`e >= 0`) or divided by `10^-e`: an integer stays an
/// integer when multiplied, a decimal becomes an integer when the product has
/// no fraction, and a division gives a decimal (a zero past the largest scale
/// is the zero of that scale).
pub open spec fn apply_exponent(n: N, e: int) -> Option<N> {
    match n {
        N::Int(i) => if e >= 0 {
            if fits_i64(i * pow10(e as nat)) {
                Some(N::Int((i * pow10(e as nat)) as i64))
            } else {
                None
            }
        } else if -e <= MAX_SCALE {
            Some(dec(i as int, -e))
        } else if i == 0 {
            Some(dec(0, MAX_SCALE as int))
        } else {
            None
        },
        N::Decimal(d) => if e >= 0 {
            let m = d.mantissa * pow10(e as nat);
            if !fits_mantissa(m) {
                None
            } else if m % pow10(d.scale as nat) == 0 {
                if fits_i64(m / pow10(d.scale as nat)) {
                    Some(N::Int((m / pow10(d.scale as nat)) as i64))
                } else {
                    None
                }
            } else {
                Some(dec(m, d.scale as int))
            }
        } else if d.scale - e <= MAX_SCALE {
            Some(dec(d.mantissa as int, d.scale - e))
        } else if d.mantissa == 0 {
            Some(dec(0, MAX_SCALE as int))
        } else {
            None
        },
    }
}

/// Whether an ASCII letter stands at `k`.
pub open spec fn letter_at(s: Seq<char>, k: int) -> bool {
    0 <= k < s.len() && is_ascii_letter(s[k])
}

/// Whether `s[from..to]` is a run that starts and ends with a digit.
pub open spec fn digit_bounded(s: Seq<char>, from: int, to: int) -> bool {
    from < to && is_digit(s[from]) && is_digit(s[to - 1])
}

/// Where the exponent digits of an exponent marker at `k` start.
pub open spec fn exponent_digits_start(s: Seq<char>, k: int) -> int {
    if char_at(s, k + 1, '-') || char_at(s, k + 1, '+') {
        k + 2
    } else {
        k + 1
    }
}

/// The exponent at `k`: `None` when there is none (no marker, or no digit
/// run that starts and ends with a digit), else its value (`None` when it
/// exceeds an `i64`) and its end.
pub open spec fn exponent_at(s: Seq<char>, k: int) -> Option<(Option<int>, int)> {
    let ds = exponent_digits_start(s, k);
    let de = run_end(s, ds, Class::DigitOrUnderscore);
    if !(char_at(s, k, 'e') || char_at(s, k, 'E')) || !digit_bounded(s, ds, de) {
        None
    } else {
        let v = digits_value(s, ds, de, 0);
        if v > i64::MAX {
            Some((None, de))
        } else if char_at(s, k + 1, '-') {
            Some((Some(-v), de))
        } else {
            Some((Some(v), de))
        }
    }
}

/// `v`, negated when `flag` holds.
pub open spec fn sign_of(v: N, flag: bool) -> N {
    if flag {
        v.spec_neg()
    } else {
        v
    }
}

/// The numeric literal at `i`: an optional sign, digits (with `_` between
/// them), an optional fraction, an optional exponent, and no letter right
/// after. An integer carries its sign from the start; a decimal is negated
/// once the exponent is applied.
pub open spec fn number_at(s: Seq<char>, i: int) -> Scanned<int> {
    let neg = char_at(s, i, '-');
    let j = if neg || char_at(s, i, '+') {
        i + 1
    } else {
        i
    };
    let e1 = run_end(s, j, Class::DigitOrUnderscore);
    let frac = char_at(s, e1, '.') && run_end(s, e1 + 1, Class::DigitOrUnderscore) > e1 + 1;
    let e2 = if frac {
        run_end(s, e1 + 1, Class::DigitOrUnderscore)
    } else {
        e1
    };
    let ex = exponent_at(s, e2);
    let end = match ex {
        Some((_, de)) => de,
        None => e2,
    };
    let whole = digits_value(s, j, e1, 0);
    let m = if frac {
        digits_value(s, e1 + 1, e2, whole)
    } else {
        whole
    };
    let scale = if frac {
        digit_count(s, e1 + 1, e2)
    } else {
        0
    };
    if !digit_bounded(s, j, e1) || (frac && !digit_bounded(s, e1 + 1, e2)) || letter_at(s, end) {
        Scanned::Miss
    } else {
        match mantissa_value(m, frac, scale, neg) {
            None => Scanned::Fail,
            Some(base) => match ex {
                None => Scanned::Done(sign_of(base, neg && frac), e2),
                Some((None, _)) => Scanned::Fail,
                Some((Some(e), de)) => match apply_exponent(base, e) {
                    None => Scanned::Fail,
                    Some(v) => Scanned::Done(sign_of(v, neg && frac), de),
                },
            },
        }
    }
}

/// Reads the digits of `v[from..to]` after `base`; the result is exact while
/// it stays below the mantissa bound, and `None` once it does not.
fn read_digits(v: &Vec<char>, from: usize, to: usize, base: u128) -> (r: Option<u128>)
    requires
        from <= to <= v@.len(),
        base < MANTISSA_LIMIT,
        forall|k: int| from <= k < to ==> #[trigger] in_class(v@[k], Class::DigitOrUnderscore),
    ensures
        match r {
            Some(x) => x == digits_value(v@, from as int, to as int, base as int) && x < MANTISSA_LIMIT,
            None => digits_value(v@, from as int, to as int, base as int) >= MANTISSA_LIMIT,
        },
{
    let mut acc: u128 = base;
    let mut k = from;
    while k < to
        invariant
            from <= k <= to <= v@.len(),
            acc < MANTISSA_LIMIT,
            acc == digits_value(v@, from as int, k as int, base as int),
            forall|m: int| from <= m < to ==> #[trigger] in_class(v@[m], Class::DigitOrUnderscore),
        decreases to - k,
    {
        let c = v[k];
        assert(in_class(v@[k as int], Class::DigitOrUnderscore));
        if c != '_' {
            let d = (c as u32 - '0' as u32) as u128;
            let next = acc * 10 + d;
            if next >= MANTISSA_LIMIT {
                proof {
                    lemma_digits_monotone(v@, from as int, (k + 1) as int, to as int, base as int);
                }
                return None;
            }
            acc = next;
        }
        k = k + 1;
    }
    Some(acc)
}

/// Digits only add to a value.
pub proof fn lemma_digits_monotone(s: Seq<char>, from: int, mid: int, to: int, base: int)
    requires
        from <= mid <= to,
        base >= 0,
        forall|k: int| from <= k < to ==> #[trigger] in_class(s[k], Class::DigitOrUnderscore),
    ensures
        digits_value(s, from, to, base) >= digits_value(s, from, mid, base) >= 0,
    decreases to - from,
{
    if to > mid {
        lemma_digits_monotone(s, from, mid, to - 1, base);
        assert(in_class(s[to - 1], Class::DigitOrUnderscore));
    } else if to > from {
        lemma_digits_monotone(s, from, mid - 1, to - 1, base);
        assert(in_class(s[to - 1], Class::DigitOrUnderscore));
    }
}

/// Counts the digits of `v[from..to]`.
fn count_digits(v: &Vec<char>, from: usize, to: usize) -> (r: usize)
    requires
        from <= to <= v@.len(),
    ensures
        r == digit_count(v@, from as int, to as int),
        r <= to - from,
{
    let mut n: usize = 0;
    let mut k = from;
    while k < to
        invariant
            from <= k <= to <= v@.len(),
            n == digit_count(v@, from as int, k as int),
            n <= k - from,
        decreases to - k,
    {
        if v[k] != '_' {
            n = n + 1;
        }
        k = k + 1;
    }
    n
}

/// Every position of a run is a member of its class.
pub proof fn lemma_run_members(s: Seq<char>, i: int, k: Class)
    requires
        0 <= i <= s.len(),
    ensures
        i <= run_end(s, i, k) <= s.len(),
        forall|m: int| i <= m < run_end(s, i, k) ==> #[trigger] in_class(s[m], k),
    decreases s.len() - i,
{
    if i < s.len() && in_class(s[i], k) {
        lemma_run_members(s, i + 1, k);
    }
}

/// Powers of ten grow.
pub proof fn lemma_pow10_monotone(a: nat, b: nat)
    requires
        a <= b,
    ensures
        1 <= pow10(a) <= pow10(b),
    decreases b,
{
    if b > 0 {
        if a == b {
            lemma_pow10_monotone((b - 1) as nat, (b - 1) as nat);
        } else {
            lemma_pow10_monotone(a, (b - 1) as nat);
        }
    }
}

/// The powers of ten that bound the integer and mantissa ranges.
proof fn lemma_pow10_bounds()
    ensures
        pow10(18) == 1000000000000000000,
        pow10(19) == 10000000000000000000,
        pow10(28) == 10000000000000000000000000000,
        pow10(29) == 100000000000000000000000000000,
{
    reveal_with_fuel(pow10, 30);
}

/// `10^e` for the scales of a decimal.
fn pow10_exec(e: u32) -> (r: u128)
    requires
        e <= MAX_SCALE,
    ensures
        r == pow10(e as nat),
        r < MANTISSA_LIMIT,
{
    proof {
        lemma_pow10_bounds();
    }
    let mut r: u128 = 1;
    let mut k: u32 = 0;
    while k < e
        invariant
            k <= e <= MAX_SCALE,
            r == pow10(k as nat),
        decreases e - k,
    {
        proof {
            lemma_pow10_bounds();
            lemma_pow10_monotone((k + 1) as nat, 28);
            assert(pow10((k + 1) as nat) == 10 * pow10(k as nat));
        }
        r = r * 10;
        k = k + 1;
    }
    proof {
        lemma_pow10_monotone(k as nat, 28);
    }
    r
}

/// Computes `apply_exponent` for an integer, or a non-negative decimal,
/// and an exponent that an `i64` can negate.
fn exponent_of(n: N, e: i64) -> (r: Option<N>)
    requires
        n.wf(),
        e > i64::MIN,
        match n {
            N::Int(_) => true,
            N::Decimal(d) => d.mantissa >= 0,
        },
    ensures
        r == apply_exponent(n, e as int),
        match r {
            Some(v) => v.wf() && (n is Decimal ==> match v {
                N::Int(i) => i >= 0,
                N::Decimal(d) => d.mantissa >= 0,
            }),
            None => true,
        },
{
    proof {
        lemma_pow10_bounds();
    }
    match n {
        N::Int(i) => {
            if e >= 0 {
                if i == 0 {
                    assert(0 * pow10(e as nat) == 0);
                    return Some(N::Int(0));
                }
                if e > 18 {
                    proof {
                        lemma_pow10_monotone(19, e as nat);
                        let p = pow10(e as nat);
                        if i > 0 {
                            assert(i * p >= p) by (nonlinear_arith)
                                requires i >= 1, p >= 1;
                        } else {
                            assert(i * p <= -p) by (nonlinear_arith)
                                requires i <= -1, p >= 1;
                        }
                    }
                    return None;
                }
                proof {
                    lemma_pow10_monotone(e as nat, 18);
                }
                let p = pow10_exec(e as u32);
                assert((i as int) * (p as int) <= 0x7fff_ffff_ffff_ffff * 1000000000000000000) by (nonlinear_arith)
                    requires -0x8000_0000_0000_0000 <= i <= 0x7fff_ffff_ffff_ffff, 0 <= p <= 1000000000000000000;
                assert((i as int) * (p as int) >= -0x8000_0000_0000_0000 * 1000000000000000000) by (nonlinear_arith)
                    requires -0x8000_0000_0000_0000 <= i <= 0x7fff_ffff_ffff_ffff, 0 <= p <= 1000000000000000000;
                let x = (i as i128) * (p as i128);
                if x > i64::MAX as i128 || x < i64::MIN as i128 {
                    return None;
                }
                Some(N::Int(x as i64))
            } else {
                if -e > MAX_SCALE as i64 {
                    if i == 0 {
                        return Some(N::Decimal(Decimal { mantissa: 0, scale: MAX_SCALE }));
                    }
                    return None;
                }
                Some(N::Decimal(Decimal { mantissa: i as i128, scale: (-e) as u32 }))
            }
        },
        N::Decimal(d) => {
            if e >= 0 {
                let m = d.mantissa;
                let sp = pow10_exec(d.scale) as i128;
                proof {
                    lemma_pow10_monotone(0, d.scale as nat);
                }
                if m == 0 {
                    assert(0 * pow10(e as nat) == 0);
                    assert(0int % pow10(d.scale as nat) == 0);
                    assert(0int / pow10(d.scale as nat) == 0);
                    return Some(N::Int(0));
                }
                if e > MAX_SCALE as i64 {
                    proof {
                        lemma_pow10_monotone(29, e as nat);
                        let p = pow10(e as nat);
                        assert(m * p >= p) by (nonlinear_arith)
                            requires m >= 1, p >= 1;
                    }
                    return None;
                }
                let mut x: i128 = m;
                let mut k: i64 = 0;
                assert(pow10(0) == 1);
                assert(m * pow10(0) == m);
                while k < e
                    invariant
                        0 <= k <= e <= MAX_SCALE,
                        m == d.mantissa,
                        n == N::Decimal(d),
                        m >= 1,
                        x == m * pow10(k as nat),
                        0 <= x < MANTISSA_LIMIT,
                    decreases e - k,
                {
                    let y = x * 10;
                    if y >= MANTISSA_LIMIT as i128 {
                        proof {
                            lemma_pow10_monotone((k + 1) as nat, e as nat);
                            let pk1 = pow10((k + 1) as nat);
                            let pe = pow10(e as nat);
                            assert(m * pk1 == x * 10) by (nonlinear_arith)
                                requires x == m * pow10(k as nat), pk1 == 10 * pow10(k as nat);
                            assert(m * pe >= m * pk1) by (nonlinear_arith)
                                requires m >= 1, pe >= pk1;
                            assert(m * pe >= MANTISSA_LIMIT);
                            assert(!fits_mantissa(d.mantissa * pow10(e as nat)));
                        }
                        return None;
                    }
                    proof {
                        assert(m * pow10((k + 1) as nat) == x * 10) by (nonlinear_arith)
                            requires x == m * pow10(k as nat), pow10((k + 1) as nat) == 10 * pow10(k as nat);
                    }
                    x = y;
                    k = k + 1;
                }
                if x % sp == 0 {
                    let q = x / sp;
                    if q > i64::MAX as i128 {
                        return None;
                    }
                    Some(N::Int(q as i64))
                } else {
                    Some(N::Decimal(Decimal { mantissa: x, scale: d.scale }))
                }
            } else {
                if -e > (MAX_SCALE - d.scale) as i64 {
                    if d.mantissa == 0 {
                        return Some(N::Decimal(Decimal { mantissa: 0, scale: MAX_SCALE }));
                    }
                    return None;
                }
                Some(N::Decimal(Decimal { mantissa: d.mantissa, scale: d.scale + (-e) as u32 }))
            }
        },
    }
}

/// Where the digits of an integer text start: after a leading `-`.
pub open spec fn integer_digits_start(s: Seq<char>) -> int {
    if s.len() > 0 && s[0] == '-' {
        1
    } else {
        0
    }
}

/// Whether `s` is an optional `-` followed by one or more decimal digits.
pub open spec fn is_integer_text(s: Seq<char>) -> bool {
    integer_digits_start(s) < s.len() && forall|k: int|
        integer_digits_start(s) <= k < s.len() ==> #[trigger] is_digit(s[k])
}

/// The number a whole text denotes: a numeric literal; failing that, integer
/// digits too large for an `i64` but within a decimal's mantissa, as the
/// decimal of scale zero.
pub open spec fn from_text(s: Seq<char>) -> Option<N> {
    let st = integer_digits_start(s);
    let m = digits_value(s, st, s.len() as int, 0);
    match number_at(s, 0) {
        Scanned::Done(v, p) if p == s.len() => Some(v),
        _ => if is_integer_text(s) && m < MANTISSA_LIMIT as int {
            Some(
                dec(
                    if st == 1 {
                        -m
                    } else {
                        m
                    },
                    0,
                ),
            )
        } else {
            None
        },
    }
}

impl N {
    /// The number that the whole of `s` denotes (see `from_text`).
    pub fn from_str(s: &str) -> (r: Result<N, crate::ast::TokenError>)
        requires
            s@.len() < MAX_CHARS,
        ensures
            match r {
                Ok(v) => from_text(s@) == Some(v) && v.wf(),
                Err(e) => from_text(s@) is None && e == crate::ast::TokenError::ParseDecimalError,
            },
    {
        let v = crate::chars::chars_of(s);
        if let Scanned::Done(n, p) = scan_number(&v, 0) {
            if p == v.len() {
                return Ok(n);
            }
        }
        let st: usize = if v.len() > 0 && v[0] == '-' {
            1
        } else {
            0
        };
        if st >= v.len() {
            return Err(crate::ast::TokenError::ParseDecimalError);
        }
        let mut k = st;
        while k < v.len()
            invariant
                st <= k <= v@.len(),
                st == integer_digits_start(v@),
                v@ == s@,
                !(number_at(v@, 0) matches Scanned::Done(_, p) && p == v@.len()),
                forall|m: int| st <= m < k ==> #[trigger] is_digit(v@[m]),
            decreases v@.len() - k,
        {
            if !('0' <= v[k] && v[k] <= '9') {
                assert(!is_digit(v@[k as int]));
                return Err(crate::ast::TokenError::ParseDecimalError);
            }
            k = k + 1;
        }
        assert forall|m: int| st <= m < v@.len() implies #[trigger] in_class(
            v@[m],
            Class::DigitOrUnderscore,
        ) by {
            assert(is_digit(v@[m]));
        }
        match read_digits(&v, st, v.len(), 0) {
            Some(x) => {
                let mantissa: i128 = if st == 1 {
                    -(x as i128)
                } else {
                    x as i128
                };
                Ok(N::Decimal(Decimal { mantissa, scale: 0 }))
            },
            None => Err(crate::ast::TokenError::ParseDecimalError),
        }
    }
}

/// Decides `letter_at`.
fn letter_at_exec(v: &Vec<char>, k: usize) -> (r: bool)
    ensures
        r == letter_at(v@, k as int),
{
    k < v.len() && (('a' <= v[k] && v[k] <= 'z') || ('A' <= v[k] && v[k] <= 'Z'))
}

/// Decides `digit_bounded`.
fn digit_bounded_exec(v: &Vec<char>, from: usize, to: usize) -> (r: bool)
    requires
        from <= to <= v@.len(),
    ensures
        r == digit_bounded(v@, from as int, to as int),
{
    from < to && '0' <= v[from] && v[from] <= '9' && '0' <= v[to - 1] && v[to - 1] <= '9'
}

/// An exponent as scanned.
enum Exponent {
    Absent,
    Unreadable(usize),
    Value(i64, usize),
}

/// Computes `exponent_at`.
fn exponent_exec(v: &Vec<char>, k: usize) -> (r: Exponent)
    requires
        k <= v@.len(),
        v@.len() < MAX_CHARS,
    ensures
        match r {
            Exponent::Absent => exponent_at(v@, k as int) is None,
            Exponent::Unreadable(end) => exponent_at(v@, k as int) == Some((None::<int>, end as int))
                && k < end <= v@.len(),
            Exponent::Value(e, end) => exponent_at(v@, k as int) == Some((Some(e as int), end as int))
                && e > i64::MIN && k < end <= v@.len(),
        },
{
    let ds = if has_char(v, k + 1, '-') || has_char(v, k + 1, '+') {
        k + 2
    } else {
        k + 1
    };
    if !(has_char(v, k, 'e') || has_char(v, k, 'E')) {
        return Exponent::Absent;
    }
    let de = scan(v, ds, Class::DigitOrUnderscore);
    if !digit_bounded_exec(v, ds, de) {
        return Exponent::Absent;
    }
    proof {
        lemma_run_members(v@, ds as int, Class::DigitOrUnderscore);
    }
    match read_digits(v, ds, de, 0) {
        None => Exponent::Unreadable(de),
        Some(x) => {
            if x > i64::MAX as u128 {
                Exponent::Unreadable(de)
            } else if has_char(v, k + 1, '-') {
                Exponent::Value(-(x as i64), de)
            } else {
                Exponent::Value(x as i64, de)
            }
        },
    }
}

/// `n`, negated when `flag` holds.
fn sign_exec(n: N, flag: bool) -> (r: N)
    requires
        n.wf(),
        flag ==> n != N::Int(i64::MIN),
    ensures
        r == sign_of(n, flag),
        r.wf(),
{
    if flag {
        n.negate()
    } else {
        n
    }
}

/// Scans the numeric literal at `i`.
pub fn scan_number(v: &Vec<char>, i: usize) -> (r: Scanned<usize>)
    requires
        i <= v@.len(),
        v@.len() < MAX_CHARS,
    ensures
        scanned_view(r) == number_at(v@, i as int),
        match r {
            Scanned::Done(n, p) => i < p <= v@.len() && n.wf(),
            _ => true,
        },
{
    let neg = has_char(v, i, '-');
    let j = if neg || has_char(v, i, '+') {
        i + 1
    } else {
        i
    };
    let e1 = scan(v, j, Class::DigitOrUnderscore);
    let frac = has_char(v, e1, '.') && scan(v, e1 + 1, Class::DigitOrUnderscore) > e1 + 1;
    let e2 = if frac {
        scan(v, e1 + 1, Class::DigitOrUnderscore)
    } else {
        e1
    };
    let ex = exponent_exec(v, e2);
    let end = match ex {
        Exponent::Absent => e2,
        Exponent::Unreadable(de) => de,
        Exponent::Value(_, de) => de,
    };
    if !digit_bounded_exec(v, j, e1) || (frac && !digit_bounded_exec(v, e1 + 1, e2))
        || letter_at_exec(v, end) {
        return Scanned::Miss;
    }
    proof {
        lemma_run_members(v@, j as int, Class::DigitOrUnderscore);
        if frac {
            lemma_run_members(v@, e1 + 1, Class::DigitOrUnderscore);
        }
    }
    let whole = read_digits(v, j, e1, 0);
    let ghost m = if frac {
        digits_value(v@, e1 + 1, e2 as int, digits_value(v@, j as int, e1 as int, 0))
    } else {
        digits_value(v@, j as int, e1 as int, 0)
    };
    let ghost scale = if frac {
        digit_count(v@, e1 + 1, e2 as int)
    } else {
        0
    };
    let base = if !frac {
        match whole {
            None => {
                return Scanned::Fail;
            },
            Some(w) => {
                if neg {
                    if w > 0x8000_0000_0000_0000 {
                        return Scanned::Fail;
                    }
                    N::Int((-(w as i128)) as i64)
                } else {
                    if w > i64::MAX as u128 {
                        return Scanned::Fail;
                    }
                    N::Int(w as i64)
                }
            },
        }
    } else {
        match whole {
            None => {
                proof {
                    lemma_digits_monotone(
                        v@,
                        e1 + 1,
                        e1 + 1,
                        e2 as int,
                        digits_value(v@, j as int, e1 as int, 0),
                    );
                }
                return Scanned::Fail;
            },
            Some(w) => {
                match read_digits(v, e1 + 1, e2, w) {
                    None => {
                        return Scanned::Fail;
                    },
                    Some(x) => {
                        let sc = count_digits(v, e1 + 1, e2);
                        if sc > MAX_SCALE as usize {
                            return Scanned::Fail;
                        }
                        N::Decimal(Decimal { mantissa: x as i128, scale: sc as u32 })
                    },
                }
            },
        }
    };
    assert(mantissa_value(m, frac, scale, neg) == Some(base));
    match ex {
        Exponent::Absent => Scanned::Done(sign_exec(base, neg && frac), e2),
        Exponent::Unreadable(_) => Scanned::Fail,
        Exponent::Value(e, de) => {
            match exponent_of(base, e) {
                None => Scanned::Fail,
                Some(x) => Scanned::Done(sign_exec(x, neg && frac), de),
            }
        },
    }
}

} // verus!
