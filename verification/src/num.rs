//! Numbers read from and written to text.
//!
//! Latencies, percentages and rates are held as [`Milli`]: a fixed-point value
//! with three decimal places (`12.345 ms` is `12345`). A decimal read from text is
//! cut to three places (see [`parse_milli`]); where such a value is written back
//! with one decimal place, it is first taken to the nearest `f32` and then rounded
//! as `{:.1}` rounds that `f32` (see [`tenths_text`]).
use vstd::prelude::*;
use crate::text::{
    ascii_lower, find, find_v, is_digit, is_digit_char, lemma_find, lower, push_char, same_as,
    slice_of, span_until,
};

verus! {

/// A non-negative quantity in thousandths of its unit.
pub type Milli = u64;

pub open spec fn digit_value(c: char) -> nat {
    (c as u32 - '0' as u32) as nat
}

pub open spec fn all_digits(s: Seq<char>) -> bool {
    forall|i: int| 0 <= i < s.len() ==> is_digit(#[trigger] s[i])
}

/// The value of a string of decimal digits.
pub open spec fn digits_value(s: Seq<char>) -> nat
    decreases s.len(),
{
    if s.len() == 0 {
        0
    } else {
        digits_value(s.drop_last()) * 10 + digit_value(s.last())
    }
}

/// `s` without one leading `'+'`.
pub open spec fn unsigned_body(s: Seq<char>) -> Seq<char> {
    if s.len() > 0 && s[0] == '+' {
        s.drop_first()
    } else {
        s
    }
}

/// `FromStr` for an unsigned integer type whose largest value is `max`:
/// an optional `'+'`, then at least one decimal digit, and no overflow.
pub open spec fn parse_unsigned(s: Seq<char>, max: nat) -> Option<nat> {
    let d = unsigned_body(s);
    if d.len() > 0 && all_digits(d) && digits_value(d) <= max {
        Some(digits_value(d))
    } else {
        None
    }
}

/// `s` without one leading sign.
pub open spec fn signed_body(s: Seq<char>) -> Seq<char> {
    if s.len() > 0 && (s[0] == '+' || s[0] == '-') {
        s.drop_first()
    } else {
        s
    }
}

/// The index of the first `'.'`, or the length when there is none.
pub open spec fn dot_index(s: Seq<char>) -> int {
    match find(s, seq!['.']) {
        Some(k) => k,
        None => s.len() as int,
    }
}

pub open spec fn int_digits(s: Seq<char>) -> Seq<char> {
    s.take(dot_index(s))
}

pub open spec fn frac_digits(s: Seq<char>) -> Seq<char> {
    if dot_index(s) < s.len() {
        s.skip(dot_index(s) + 1)
    } else {
        seq![]
    }
}

/// Digits with at most one `'.'` among them, and at least one digit.
pub open spec fn decimal_shape(s: Seq<char>) -> bool {
    all_digits(int_digits(s)) && all_digits(frac_digits(s)) && int_digits(s).len() + frac_digits(
        s,
    ).len() > 0
}

/// Where an exponent starts.
pub open spec fn exp_mark() -> spec_fn(char) -> bool {
    |c: char| c == 'e' || c == 'E'
}

/// The digits of an exponent, after its optional sign.
pub open spec fn exponent_digits(e: Seq<char>) -> bool {
    signed_body(e).len() > 0 && all_digits(signed_body(e))
}

/// `inf`, `infinity` or `nan`, in any case.
pub open spec fn is_special_float(b: Seq<char>) -> bool {
    let l = b.map_values(|c: char| ascii_lower(c));
    l == "inf"@ || l == "infinity"@ || l == "nan"@
}

/// A text that `f32::from_str` reads: an optional sign, then `inf`, `infinity` or
/// `nan` in any case, or digits with at most one point among them (at least one
/// digit) and an optional exponent (`e` or `E`, an optional sign, digits).
pub open spec fn is_number(s: Seq<char>) -> bool {
    let b = signed_body(s);
    is_special_float(b) || {
        let k = span_until(b, exp_mark()) as int;
        decimal_shape(b.take(k)) && (k == b.len() || exponent_digits(b.skip(k + 1)))
    }
}

/// 10 to the power `k`.
pub open spec fn pow10(k: nat) -> nat
    decreases k,
{
    if k == 0 {
        1
    } else {
        10 * pow10((k - 1) as nat)
    }
}

/// The value of an exponent's text (after `e` or `E`): its digits, negated after a `-`.
pub open spec fn exponent_value(e: Seq<char>) -> int {
    let v = digits_value(signed_body(e)) as int;
    if e.len() > 0 && e[0] == '-' {
        -v
    } else {
        v
    }
}

/// The digits of a mantissa without its point.
pub open spec fn mantissa_digits(m: Seq<char>) -> Seq<char> {
    int_digits(m) + frac_digits(m)
}

/// How many digits of the mantissa, once its point is moved `x` places to the
/// right, stand before the fourth decimal place.
pub open spec fn milli_cut(m: Seq<char>, x: int) -> int {
    int_digits(m).len() + 3 + x
}

/// The digits `ds` read as a whole number after their first `q` digits, with
/// zeros added where `q` goes past their end (none where `q <= 0`).
pub open spec fn digits_shift(ds: Seq<char>, q: int) -> nat {
    if q <= 0 {
        0
    } else if q <= ds.len() {
        digits_value(ds.take(q))
    } else {
        digits_value(ds) * pow10((q - ds.len()) as nat)
    }
}

/// Whether a digit other than `0` stands at index `q` of `ds` or after it.
pub open spec fn nonzero_past(ds: Seq<char>, q: int) -> bool {
    exists|i: int| 0 <= i < ds.len() && i >= q && ds[i] != '0'
}

/// The mantissa `m` times `10^x`, in thousandths, cut after the third decimal.
pub open spec fn shifted_milli(m: Seq<char>, x: int) -> nat {
    digits_shift(mantissa_digits(m), milli_cut(m, x))
}

/// Whether a nonzero digit of the mantissa `m` times `10^x` stands after the
/// third decimal place (what the cut drops).
pub open spec fn finer_than_milli(m: Seq<char>, x: int) -> bool {
    nonzero_past(mantissa_digits(m), milli_cut(m, x))
}

/// Where the exponent mark stands in a number's text (its length if none).
pub open spec fn exp_at(b: Seq<char>) -> int {
    span_until(b, exp_mark()) as int
}

/// The text is a non-negative decimal as `f32::from_str` reads it: an optional
/// `+`, digits with at most one point (at least one digit), an optional exponent.
pub open spec fn unsigned_decimal(s: Seq<char>) -> bool {
    let b = unsigned_body(s);
    decimal_shape(b.take(exp_at(b))) && (exp_at(b) == b.len() || exponent_digits(
        b.skip(exp_at(b) + 1),
    ))
}

/// The exponent of such a text, 0 without one.
pub open spec fn decimal_exponent(s: Seq<char>) -> int {
    let b = unsigned_body(s);
    if exp_at(b) == b.len() {
        0
    } else {
        exponent_value(b.skip(exp_at(b) + 1))
    }
}

/// The mantissa of such a text.
pub open spec fn decimal_mantissa(s: Seq<char>) -> Seq<char> {
    unsigned_body(s).take(exp_at(unsigned_body(s)))
}

/// A non-negative decimal number in thousandths, cut after the third decimal, when
/// it fits in a `u64`.
///
/// This is the library's model of a quantity that system tools print as a decimal:
/// an optional `+`, digits with at most one point (at least one digit), and an
/// optional exponent (`e` or `E`, an optional sign, digits), as `f32::from_str`
/// reads them. Where `f32::from_str` reads more, this reads nothing: a `-` sign,
/// `inf`, `infinity`, `nan`, and values of `2^64` thousandths or more. Digits past
/// the third decimal are cut (see [`finer_than_milli`]) rather than rounded to
/// single precision.
pub open spec fn parse_milli(s: Seq<char>) -> Option<nat> {
    if unsigned_decimal(s) && shifted_milli(decimal_mantissa(s), decimal_exponent(s)) <= u64::MAX {
        Some(shifted_milli(decimal_mantissa(s), decimal_exponent(s)))
    } else {
        None
    }
}

/// A number that [`parse_milli`] reads has a nonzero digit past its third decimal.
pub open spec fn milli_cut_off(s: Seq<char>) -> bool {
    finer_than_milli(decimal_mantissa(s), decimal_exponent(s))
}

pub open spec fn digit_char(d: nat) -> char {
    let k = d % 10;
    if k == 0 { '0' } else if k == 1 { '1' } else if k == 2 { '2' } else if k == 3 { '3' }
    else if k == 4 { '4' } else if k == 5 { '5' } else if k == 6 { '6' } else if k == 7 { '7' }
    else if k == 8 { '8' } else { '9' }
}

/// The decimal notation of `n`.
pub open spec fn decimal(n: nat) -> Seq<char>
    decreases n,
{
    if n < 10 {
        seq![digit_char(n)]
    } else {
        decimal(n / 10).push(digit_char(n % 10))
    }
}

/// 2 to the power `k`.
pub open spec fn two_pow(k: nat) -> nat
    decreases k,
{
    if k == 0 {
        1
    } else {
        2 * two_pow((k - 1) as nat)
    }
}

/// `num / den` rounded to a whole number, ties to the even one.
pub open spec fn round_even(num: nat, den: nat) -> nat {
    let q = num / den;
    let r = num % den;
    if 2 * r > den {
        q + 1
    } else if 2 * r == den {
        q + q % 2
    } else {
        q
    }
}

/// The numerator of `n / 1000` divided by `2^e`.
pub open spec fn scaled_num(n: nat, e: int) -> nat {
    if e >= 0 {
        n
    } else {
        n * two_pow((-e) as nat)
    }
}

/// The denominator of `n / 1000` divided by `2^e`.
pub open spec fn scaled_den(e: int) -> nat {
    if e >= 0 {
        1000 * two_pow(e as nat)
    } else {
        1000
    }
}

/// The binary exponent `e` that makes `n / 1000 / 2^e` a 24-bit significand
/// (at least `2^23`), searched downwards from `e`; -40 at the least.
pub open spec fn f32_exponent(n: nat, e: int) -> int
    decreases e + 40,
{
    if e <= -40 || two_pow(23) * scaled_den(e) <= scaled_num(n, e) {
        e
    } else {
        f32_exponent(n, e - 1)
    }
}

/// The exponent of the single-precision value of `n / 1000` (`n` below `2^64`).
pub open spec fn f32_exp_of(n: nat) -> int {
    f32_exponent(n, 40)
}

/// The significand of the single-precision value of `n / 1000`: the quotient at
/// that exponent, rounded to nearest, ties to even (what `f32::from_str` does).
pub open spec fn f32_mant_of(n: nat) -> nat {
    round_even(scaled_num(n, f32_exp_of(n)), scaled_den(f32_exp_of(n)))
}

/// Ten times the single-precision value of `n / 1000`, rounded to a whole number,
/// ties to even: the tenths that `{:.1}` writes for that `f32`.
pub open spec fn f32_tenths(n: nat) -> nat {
    let e = f32_exp_of(n);
    let m = f32_mant_of(n);
    if e >= 0 {
        10 * m * two_pow(e as nat)
    } else {
        round_even(10 * m, two_pow((-e) as nat))
    }
}

/// `n` thousandths as `format!("{:.1}", x)` writes the `f32` `x` nearest to them:
/// the value is first rounded to single precision, then to tenths, ties to even.
pub open spec fn tenths_text(n: nat) -> Seq<char> {
    let t = f32_tenths(n);
    decimal(t / 10).push('.').push(digit_char(t % 10))
}

/// The sum of a sequence of values.
pub open spec fn seq_sum(s: Seq<u64>) -> nat
    decreases s.len(),
{
    if s.len() == 0 {
        0
    } else {
        seq_sum(s.drop_last()) + (s.last() as nat)
    }
}

/// The largest value, or 0 for an empty sequence (a fold from 0 with `max`).
pub open spec fn seq_max(s: Seq<u64>) -> nat
    decreases s.len(),
{
    if s.len() == 0 {
        0
    } else {
        let m = seq_max(s.drop_last());
        if s.last() > m {
            s.last() as nat
        } else {
            m
        }
    }
}

/// The smallest value, or 0 for an empty sequence.
pub open spec fn seq_min(s: Seq<u64>) -> nat
    decreases s.len(),
{
    if s.len() == 0 {
        0
    } else if s.len() == 1 {
        s[0] as nat
    } else {
        let m = seq_min(s.drop_last());
        if (s.last() as nat) < m {
            s.last() as nat
        } else {
            m
        }
    }
}

/// The mean, rounded down, or 0 for an empty sequence.
pub open spec fn seq_avg(s: Seq<u64>) -> nat {
    if s.len() == 0 {
        0
    } else {
        seq_sum(s) / s.len()
    }
}

// ---------------------------------------------------------------------------
// Lemmas
// ---------------------------------------------------------------------------

pub proof fn lemma_digits_value_prefix(s: Seq<char>, i: int)
    requires
        0 <= i <= s.len(),
    ensures
        digits_value(s.take(i)) <= digits_value(s),
    decreases s.len() - i,
{
    if i < s.len() {
        assert(s.drop_last().take(i) =~= s.take(i));
        lemma_digits_value_prefix(s.drop_last(), i);
    } else {
        assert(s.take(i) =~= s);
    }
}

pub proof fn lemma_seq_sum_bound(s: Seq<u64>)
    ensures
        seq_sum(s) <= s.len() * (u64::MAX as nat),
    decreases s.len(),
{
    if s.len() > 0 {
        lemma_seq_sum_bound(s.drop_last());
        let n = s.len();
        assert((n - 1) * (u64::MAX as nat) + (u64::MAX as nat) == n * (u64::MAX as nat))
            by (nonlinear_arith);
    }
}

pub proof fn lemma_seq_bounds(s: Seq<u64>)
    ensures
        seq_max(s) <= u64::MAX,
        seq_min(s) <= u64::MAX,
        seq_avg(s) <= u64::MAX,
    decreases s.len(),
{
    if s.len() > 0 {
        lemma_seq_bounds(s.drop_last());
        lemma_seq_sum_bound(s);
        let n = s.len();
        let t = seq_sum(s);
        assert(t / n <= u64::MAX as nat) by (nonlinear_arith)
            requires
                t <= n * (u64::MAX as nat),
                n > 0,
        ;
    }
}

// ---------------------------------------------------------------------------
// Executable operations

/// The smallest, mean and largest of the values (all 0 for none).
pub fn min_avg_max(v: &Vec<u64>) -> (r: (u64, u64, u64))
    ensures
        r.0 == seq_min(v@),
        r.1 == seq_avg(v@),
        r.2 == seq_max(v@),
{
    let mut sum: u128 = 0;
    let mut mn: u64 = 0;
    let mut mx: u64 = 0;
    for i in 0..v.len()
        invariant
            sum == seq_sum(v@.take(i as int)),
            mn == seq_min(v@.take(i as int)),
            mx == seq_max(v@.take(i as int)),
    {
        let x = v[i];
        let ghost t = v@.take(i + 1);
        assert(t.drop_last() =~= v@.take(i as int));
        proof {
            lemma_seq_sum_bound(v@.take(i as int));
            let n = i as nat;
            assert(n * (u64::MAX as nat) < 0x1_0000_0000_0000_0000_0000_0000_0000_0000 - 0x1_0000_0000_0000_0000)
                by (nonlinear_arith)
                requires
                    n < 0x1_0000_0000_0000_0000,
            ;
        }
        sum = sum + x as u128;
        if i == 0 || x < mn {
            mn = x;
        }
        if x > mx {
            mx = x;
        }
    }
    assert(v@.take(v.len() as int) =~= v@);
    proof {
        lemma_seq_bounds(v@);
    }
    let avg = if v.len() == 0 {
        0
    } else {
        (sum / v.len() as u128) as u64
    };
    (mn, avg, mx)
}

// ---------------------------------------------------------------------------
// Executable operations (parsing)
// ---------------------------------------------------------------------------

/// The value of an ASCII digit.
pub fn digit_of(c: char) -> (r: u64)
    requires
        is_digit(c),
    ensures
        r == digit_value(c),
        r < 10,
{
    (c as u32 - '0' as u32) as u64
}

/// Whether every character is an ASCII digit.
pub fn all_digits_v(v: &Vec<char>) -> (r: bool)
    ensures
        r == all_digits(v@),
{
    for i in 0..v.len()
        invariant
            forall|j: int| 0 <= j < i ==> is_digit(#[trigger] v@[j]),
    {
        if !is_digit_char(v[i]) {
            return false;
        }
    }
    true
}

/// The value of a string of digits, when it fits in a `u64`.
pub fn digits_to_u64(v: &Vec<char>) -> (r: Option<u64>)
    requires
        all_digits(v@),
    ensures
        r matches Some(x) ==> x == digits_value(v@),
        r is None ==> digits_value(v@) > u64::MAX,
{
    let mut acc: u64 = 0;
    for i in 0..v.len()
        invariant
            all_digits(v@),
            acc == digits_value(v@.take(i as int)),
    {
        let d = digit_of(v[i]);
        assert(v@.take(i + 1).drop_last() =~= v@.take(i as int));
        if acc > (u64::MAX - d) / 10 {
            proof {
                lemma_digits_value_prefix(v@, i + 1);
            }
            return None;
        }
        acc = acc * 10 + d;
    }
    assert(v@.take(v.len() as int) =~= v@);
    Some(acc)
}

/// `FromStr` for an unsigned integer type whose largest value is `max`.
pub fn parse_unsigned_v(v: &Vec<char>, max: u64) -> (r: Option<u64>)
    ensures
        r matches Some(x) ==> parse_unsigned(v@, max as nat) == Some(x as nat),
        r is None ==> parse_unsigned(v@, max as nat) is None,
{
    let d = if v.len() > 0 && v[0] == '+' {
        slice_of(v, 1, v.len())
    } else {
        slice_of(v, 0, v.len())
    };
    assert(d@ =~= unsigned_body(v@));
    if d.len() == 0 || !all_digits_v(&d) {
        return None;
    }
    match digits_to_u64(&d) {
        Some(x) => {
            if x <= max {
                Some(x)
            } else {
                None
            }
        },
        None => None,
    }
}

/// `u32::from_str`.
pub fn parse_u32_v(v: &Vec<char>) -> (r: Option<u32>)
    ensures
        r matches Some(x) ==> parse_unsigned(v@, u32::MAX as nat) == Some(x as nat),
        r is None ==> parse_unsigned(v@, u32::MAX as nat) is None,
{
    match parse_unsigned_v(v, u32::MAX as u64) {
        Some(x) => Some(x as u32),
        None => None,
    }
}

/// `u16::from_str`.
pub fn parse_u16_v(v: &Vec<char>) -> (r: Option<u16>)
    ensures
        r matches Some(x) ==> parse_unsigned(v@, u16::MAX as nat) == Some(x as nat),
        r is None ==> parse_unsigned(v@, u16::MAX as nat) is None,
{
    match parse_unsigned_v(v, u16::MAX as u64) {
        Some(x) => Some(x as u16),
        None => None,
    }
}

/// `u8::from_str`.
pub fn parse_u8_v(v: &Vec<char>) -> (r: Option<u8>)
    ensures
        r matches Some(x) ==> parse_unsigned(v@, u8::MAX as nat) == Some(x as nat),
        r is None ==> parse_unsigned(v@, u8::MAX as nat) is None,
{
    match parse_unsigned_v(v, u8::MAX as u64) {
        Some(x) => Some(x as u8),
        None => None,
    }
}

/// The integer and fraction digits of a number around its first point.
fn split_decimal(d: &Vec<char>) -> (r: (Vec<char>, Vec<char>))
    ensures
        r.0@ == int_digits(d@),
        r.1@ == frac_digits(d@),
{
    let dot = vec!['.'];
    assert(dot@ =~= seq!['.']);
    match find_v(d, &dot) {
        Some(k) => {
            proof {
                lemma_find(d@, dot@);
            }
            assert(k < d.len());
            (slice_of(d, 0, k), slice_of(d, k + 1, d.len()))
        },
        None => {
            assert(d@.take(d@.len() as int) =~= d@);
            (slice_of(d, 0, d.len()), Vec::new())
        },
    }
}

fn decimal_shape_v(d: &Vec<char>) -> (r: bool)
    ensures
        r == decimal_shape(d@),
{
    let (a, b) = split_decimal(d);
    all_digits_v(&a) && all_digits_v(&b) && (a.len() > 0 || b.len() > 0)
}

fn special_float_v(b: &Vec<char>) -> (r: bool)
    ensures
        r == is_special_float(b@),
{
    let mut l: Vec<char> = Vec::new();
    for i in 0..b.len()
        invariant
            l@ == b@.take(i as int).map_values(|c: char| ascii_lower(c)),
    {
        l.push(lower(b[i]));
        assert(l@ =~= b@.take(i + 1).map_values(|c: char| ascii_lower(c)));
    }
    assert(b@.take(b.len() as int) =~= b@);
    same_as(&l, "inf") || same_as(&l, "infinity") || same_as(&l, "nan")
}

fn exponent_digits_v(e: &Vec<char>) -> (r: bool)
    ensures
        r == exponent_digits(e@),
{
    let d = if e.len() > 0 && (e[0] == '+' || e[0] == '-') {
        slice_of(e, 1, e.len())
    } else {
        slice_of(e, 0, e.len())
    };
    assert(d@ =~= signed_body(e@));
    d.len() > 0 && all_digits_v(&d)
}

/// Whether `f32::from_str` reads the text (see [`is_number`]).
pub fn is_number_v(v: &Vec<char>) -> (r: bool)
    ensures
        r == is_number(v@),
{
    let b = if v.len() > 0 && (v[0] == '+' || v[0] == '-') {
        slice_of(v, 1, v.len())
    } else {
        slice_of(v, 0, v.len())
    };
    assert(b@ =~= signed_body(v@));
    if special_float_v(&b) {
        return true;
    }
    let mut k: usize = 0;
    while k < b.len() && b[k] != 'e' && b[k] != 'E'
        invariant
            k <= b.len(),
            forall|j: int| 0 <= j < k ==> !(exp_mark())(#[trigger] b@[j]),
        decreases b.len() - k,
    {
        k += 1;
    }
    proof {
        crate::text::lemma_span_until(b@, exp_mark(), k as int);
        if k < b.len() {
            assert((exp_mark())(b@.skip(k as int)[0]));
        }
    }
    let m = slice_of(&b, 0, k);
    assert(m@ =~= b@.take(k as int));
    if !decimal_shape_v(&m) {
        return false;
    }
    if k == b.len() {
        return true;
    }
    let e = slice_of(&b, k + 1, b.len());
    assert(e@ =~= b@.skip(k + 1));
    exponent_digits_v(&e)
}

/// Where an exponent's digits stop being read one by one: no text that fits in
/// memory has this many digits around its point, so a larger exponent moves every
/// digit past the third decimal, or every digit beyond what a `u64` holds.
const EXP_CAP: u128 = 100_000_000_000_000_000_000;

proof fn lemma_pow10_pos(k: nat)
    ensures
        pow10(k) >= 1,
    decreases k,
{
    if k > 0 {
        lemma_pow10_pos((k - 1) as nat);
    }
}

proof fn lemma_pow10_mono(a: nat, b: nat)
    requires
        a <= b,
    ensures
        pow10(a) <= pow10(b),
    decreases b,
{
    if a < b {
        lemma_pow10_mono(a, (b - 1) as nat);
        lemma_pow10_pos((b - 1) as nat);
    }
}

/// The value of a string of digits, or `cap` where it is `cap` or more.
fn capped_digits(v: &Vec<char>, cap: u128) -> (r: u128)
    requires
        all_digits(v@),
        cap <= EXP_CAP,
    ensures
        digits_value(v@) < cap ==> r == digits_value(v@),
        digits_value(v@) >= cap ==> r == cap,
{
    let mut acc: u128 = 0;
    for i in 0..v.len()
        invariant
            all_digits(v@),
            cap <= EXP_CAP,
            digits_value(v@.take(i as int)) < cap ==> acc == digits_value(v@.take(i as int)),
            digits_value(v@.take(i as int)) >= cap ==> acc == cap,
    {
        let d = digit_of(v[i]) as u128;
        assert(v@.take(i + 1).drop_last() =~= v@.take(i as int));
        if acc < cap {
            let t = acc * 10 + d;
            acc = if t < cap {
                t
            } else {
                cap
            };
        }
    }
    assert(v@.take(v.len() as int) =~= v@);
    acc
}

/// Whether a digit other than `0` stands at `from` or after it.
fn nonzero_from(ds: &Vec<char>, from: usize) -> (r: bool)
    ensures
        r == exists|i: int| from <= i < ds@.len() && ds@[i] != '0',
{
    let mut i = from;
    while i < ds.len()
        invariant
            from <= i,
            forall|j: int| from <= j < i ==> #[trigger] ds@[j] == '0',
        decreases ds.len() - i,
    {
        if ds[i] != '0' {
            return true;
        }
        i += 1;
    }
    false
}

/// `w` times `10^t`, when it fits in a `u64`.
fn scale_up(w: u64, t: u128) -> (r: Option<u64>)
    ensures
        r matches Some(y) ==> y == w * pow10(t as nat),
        r is None ==> w * pow10(t as nat) > u64::MAX,
{
    if w == 0 {
        return Some(0);
    }
    let mut acc: u64 = w;
    let mut i: u128 = 0;
    assert(pow10(0) == 1);
    while i < t
        invariant
            i <= t,
            acc == w * pow10(i as nat),
        decreases t - i,
    {
        let ghost pi = pow10(i as nat);
        assert(pow10((i + 1) as nat) == 10 * pi);
        assert(w * pow10((i + 1) as nat) == acc * 10) by (nonlinear_arith)
            requires
                pow10((i + 1) as nat) == 10 * pi,
                acc == w * pi,
        ;
        if acc > u64::MAX / 10 {
            proof {
                lemma_pow10_mono((i + 1) as nat, t as nat);
                let pt = pow10(t as nat);
                let pj = pow10((i + 1) as nat);
                assert(w * pt >= w * pj) by (nonlinear_arith)
                    requires
                        pt >= pj,
                ;
            }
            return None;
        }
        acc = acc * 10;
        i = i + 1;
    }
    Some(acc)
}

/// The digits `ds`, of which the first `p` stand before the point, times `10^x`
/// in thousandths: the value cut after the third decimal when it fits in a `u64`,
/// and whether a digit other than `0` was cut. `neg` and `mag` give `x` as read,
/// its magnitude capped at [`EXP_CAP`].
fn shift_digits(ds: &Vec<char>, p: usize, neg: bool, mag: u128, Ghost(x): Ghost<int>) -> (r: Option<(Milli, bool)>)
    requires
        all_digits(ds@),
        mag <= EXP_CAP,
        mag < EXP_CAP ==> x == if neg {
            -(mag as int)
        } else {
            mag as int
        },
        mag == EXP_CAP && neg ==> x <= -(EXP_CAP as int),
        mag == EXP_CAP && !neg ==> x >= EXP_CAP as int,
    ensures
        r matches Some(c) ==> digits_shift(ds@, p + 3 + x) == c.0 as nat && c.1 == nonzero_past(
            ds@,
            p + 3 + x,
        ),
        r is None ==> digits_shift(ds@, p + 3 + x) > u64::MAX,
{
    let len = ds.len();
    let ghost qt = p + 3 + x;
    let q: i128 = if neg {
        p as i128 + 3 - mag as i128
    } else {
        p as i128 + 3 + mag as i128
    };
    assert(mag < EXP_CAP ==> qt == q);
    assert(mag == EXP_CAP && neg ==> qt <= q && q < 0);
    assert(mag == EXP_CAP && !neg ==> qt >= q && q > len + 20);
    if q <= 0 {
        return Some((0, nonzero_from(ds, 0)));
    }
    if q <= len as i128 {
        let head = slice_of(ds, 0, q as usize);
        assert(head@ =~= ds@.take(q as int));
        assert(all_digits(head@));
        return match digits_to_u64(&head) {
            None => None,
            Some(w) => Some((w, nonzero_from(ds, q as usize))),
        };
    }
    let ghost s = (qt - len) as nat;
    match digits_to_u64(ds) {
        None => {
            proof {
                lemma_pow10_pos(s);
                let dv = digits_value(ds@);
                let ps = pow10(s);
                assert(dv * ps >= dv) by (nonlinear_arith)
                    requires
                        ps >= 1,
                ;
            }
            None
        },
        Some(w) => {
            let t: u128 = (q - len as i128) as u128;
            assert(t <= s);
            match scale_up(w, t) {
                None => {
                    proof {
                        lemma_pow10_mono(t as nat, s);
                        let pt = pow10(t as nat);
                        let ps = pow10(s);
                        assert(w * ps >= w * pt) by (nonlinear_arith)
                            requires
                                ps >= pt,
                        ;
                    }
                    None
                },
                Some(y) => {
                    proof {
                        if mag == EXP_CAP && w > 0 {
                            lemma_pow10_mono(20, t as nat);
                            assert(pow10(20) == 100_000_000_000_000_000_000nat) by {
                                reveal_with_fuel(pow10, 21);
                            }
                            let pt = pow10(t as nat);
                            assert(w * pt >= pt) by (nonlinear_arith)
                                requires
                                    w >= 1,
                            ;
                            assert(false);
                        }
                        assert(digits_shift(ds@, qt) == w * pow10(s));
                        if w == 0 {
                            let ps = pow10(s);
                            let pt = pow10(t as nat);
                            assert(w * ps == 0 && w * pt == 0) by (nonlinear_arith)
                                requires
                                    w == 0,
                            ;
                        } else {
                            assert(t == s);
                        }
                        assert(!nonzero_past(ds@, qt));
                    }
                    Some((y, false))
                },
            }
        },
    }
}

/// A non-negative decimal number read as thousandths (see [`parse_milli`]), and
/// whether a digit other than `0` was cut past its third decimal (see
/// [`milli_cut_off`]).
pub fn read_milli_v(v: &Vec<char>) -> (r: Option<(Milli, bool)>)
    ensures
        r matches Some(p) ==> parse_milli(v@) == Some(p.0 as nat) && p.1 == milli_cut_off(v@),
        r is None ==> parse_milli(v@) is None,
{
    let b = if v.len() > 0 && v[0] == '+' {
        slice_of(v, 1, v.len())
    } else {
        slice_of(v, 0, v.len())
    };
    assert(b@ =~= unsigned_body(v@));
    let mut k: usize = 0;
    while k < b.len() && b[k] != 'e' && b[k] != 'E'
        invariant
            k <= b.len(),
            forall|j: int| 0 <= j < k ==> !(exp_mark())(#[trigger] b@[j]),
        decreases b.len() - k,
    {
        k += 1;
    }
    proof {
        crate::text::lemma_span_until(b@, exp_mark(), k as int);
        if k < b.len() {
            assert((exp_mark())(b@.skip(k as int)[0]));
        }
    }
    assert(exp_at(b@) == k);
    let m = slice_of(&b, 0, k);
    assert(m@ =~= b@.take(k as int));
    assert(m@ == decimal_mantissa(v@));
    if !decimal_shape_v(&m) {
        return None;
    }
    let ghost x = decimal_exponent(v@);
    let mut neg = false;
    let mut mag: u128 = 0;
    if k < b.len() {
        let e = slice_of(&b, k + 1, b.len());
        assert(e@ =~= b@.skip(k + 1));
        if !exponent_digits_v(&e) {
            return None;
        }
        neg = e[0] == '-';
        let d = if e[0] == '+' || e[0] == '-' {
            slice_of(&e, 1, e.len())
        } else {
            slice_of(&e, 0, e.len())
        };
        assert(d@ =~= signed_body(e@));
        mag = capped_digits(&d, EXP_CAP);
    }
    assert(unsigned_decimal(v@));
    assert(mag <= EXP_CAP);
    assert(mag < EXP_CAP ==> x == if neg {
        -(mag as int)
    } else {
        mag as int
    });
    assert(mag == EXP_CAP && neg ==> x <= -(EXP_CAP as int));
    assert(mag == EXP_CAP && !neg ==> x >= EXP_CAP as int);
    let (a, f) = split_decimal(&m);
    let p = a.len();
    let mut ds = a;
    let mut rest = f;
    ds.append(&mut rest);
    assert(ds@ =~= mantissa_digits(m@));
    assert(all_digits(ds@)) by {
        assert forall|i: int| 0 <= i < ds@.len() implies is_digit(#[trigger] ds@[i]) by {
            if i < p as int {
                assert(ds@[i] == int_digits(m@)[i]);
            } else {
                assert(ds@[i] == frac_digits(m@)[i - p]);
            }
        }
    }
    shift_digits(&ds, p, neg, mag, Ghost(x))
}

/// A non-negative decimal number read as thousandths (see [`parse_milli`]).
pub fn parse_milli_v(v: &Vec<char>) -> (r: Option<Milli>)
    ensures
        r matches Some(x) ==> parse_milli(v@) == Some(x as nat),
        r is None ==> parse_milli(v@) is None,
{
    match read_milli_v(v) {
        Some(p) => Some(p.0),
        None => None,
    }
}

/// Appends the decimal notation of `n`.
pub fn push_decimal(s: &mut String, n: u64)
    ensures
        final(s)@ == old(s)@ + decimal(n as nat),
    decreases n,
{
    if n >= 10 {
        push_decimal(s, n / 10);
    }
    let c = char_of_digit(n % 10);
    push_char(s, c);
    proof {
        if n >= 10 {
            assert(old(s)@ + decimal(n as nat) =~= old(s)@ + decimal((n / 10) as nat) + seq![c]);
        } else {
            assert(old(s)@ + decimal(n as nat) =~= old(s)@.push(c));
        }
    }
}

fn char_of_digit(d: u64) -> (c: char)
    requires
        d < 10,
    ensures
        c == digit_char(d as nat),
{
    if d == 0 { '0' } else if d == 1 { '1' } else if d == 2 { '2' } else if d == 3 { '3' }
    else if d == 4 { '4' } else if d == 5 { '5' } else if d == 6 { '6' } else if d == 7 { '7' }
    else if d == 8 { '8' } else { '9' }
}

/// The decimal notation of `n` (`n.to_string()`).
pub fn decimal_string(n: u64) -> (s: String)
    ensures
        s@ == decimal(n as nat),
{
    let mut s = String::new();
    push_decimal(&mut s, n);
    assert(s@ =~= decimal(n as nat));
    s
}

proof fn lemma_two_pow_mono(a: nat, b: nat)
    requires
        a <= b,
    ensures
        1 <= two_pow(a) <= two_pow(b),
    decreases b,
{
    if b > 0 {
        if a == b {
            lemma_two_pow_mono((b - 1) as nat, (b - 1) as nat);
        } else {
            lemma_two_pow_mono(a, (b - 1) as nat);
        }
    }
}

proof fn lemma_two_pow_values()
    ensures
        two_pow(23) == 8388608,
        two_pow(40) == 1099511627776,
{
    reveal_with_fuel(two_pow, 41);
}

fn two_pow_v(k: u64) -> (r: u128)
    requires
        k <= 40,
    ensures
        r == two_pow(k as nat),
        1 <= r <= 1099511627776,
{
    proof {
        lemma_two_pow_values();
    }
    let mut p: u128 = 1;
    let mut i: u64 = 0;
    while i < k
        invariant
            i <= k <= 40,
            p == two_pow(i as nat),
            two_pow(40) == 1099511627776,
        decreases k - i,
    {
        proof {
            lemma_two_pow_mono(i as nat, 39);
            lemma_two_pow_mono(39, 40);
        }
        p = p * 2;
        i += 1;
    }
    proof {
        lemma_two_pow_mono(k as nat, 40);
    }
    p
}

fn round_even_v(num: u128, den: u128) -> (r: u128)
    requires
        0 < den <= 0x1_0000_0000_0000_0000_0000_0000,
        num <= 0x1_0000_0000_0000_0000_0000_0000_0000,
    ensures
        r == round_even(num as nat, den as nat),
        r <= num / den + 1,
{
    let q = num / den;
    let rem = num % den;
    if 2 * rem > den {
        q + 1
    } else if 2 * rem == den {
        q + q % 2
    } else {
        q
    }
}

fn scaled_v(n: u64, e: i64) -> (r: (u128, u128))
    requires
        -40 <= e <= 40,
    ensures
        r.0 == scaled_num(n as nat, e as int),
        r.1 == scaled_den(e as int),
        r.0 <= u64::MAX * 1099511627776,
        1000 <= r.1 <= 1000 * 1099511627776,
{
    if e >= 0 {
        let p = two_pow_v(e as u64);
        (n as u128, 1000 * p)
    } else {
        let p = two_pow_v((-e) as u64);
        assert((n as int) * (p as int) <= u64::MAX * 1099511627776) by (nonlinear_arith)
            requires
                n <= u64::MAX,
                p <= 1099511627776,
        ;
        (n as u128 * p, 1000)
    }
}

/// Ten times the single-precision value of `n / 1000`, rounded to tenths (see
/// [`f32_tenths`]).
fn f32_tenths_v(n: Milli) -> (t: u128)
    ensures
        t == f32_tenths(n as nat),
{
    proof {
        lemma_two_pow_values();
    }
    let mut e: i64 = 40;
    let (mut num, mut den) = scaled_v(n, e);
    while !(e <= -40 || 8388608 * den <= num)
        invariant
            -40 <= e <= 40,
            num == scaled_num(n as nat, e as int),
            den == scaled_den(e as int),
            num <= u64::MAX * 1099511627776,
            1000 <= den <= 1000 * 1099511627776,
            two_pow(23) == 8388608,
            f32_exponent(n as nat, 40) == f32_exponent(n as nat, e as int),
        decreases e + 40,
    {
        e = e - 1;
        let sd = scaled_v(n, e);
        num = sd.0;
        den = sd.1;
    }
    assert(f32_exponent(n as nat, e as int) == e);
    let m = round_even_v(num, den);
    assert(m == f32_mant_of(n as nat));
    if e >= 0 {
        let p = two_pow_v(e as u64);
        let q = num / den;
        assert(m <= q + 1);
        assert((q as int) * (den as int) <= num as int) by (nonlinear_arith)
            requires
                den > 0,
                q == num / den,
        ;
        assert(den == 1000 * p);
        assert((m as int) * (p as int) <= (num as int) + (p as int)) by (nonlinear_arith)
            requires
                m <= q + 1,
                (q as int) * (1000 * (p as int)) <= num as int,
                p >= 1,
        ;
        assert(10 * (m as int) * (p as int) == 10 * ((m as int) * (p as int))) by (nonlinear_arith);
        10 * m * p
    } else {
        let p = two_pow_v((-e) as u64);
        let q = num / den;
        assert(q <= num) by (nonlinear_arith)
            requires
                den >= 1,
                q == num / den,
        ;
        round_even_v(10 * m, p)
    }
}

fn push_decimal_wide(s: &mut String, n: u128)
    ensures
        final(s)@ == old(s)@ + decimal(n as nat),
    decreases n,
{
    if n >= 10 {
        push_decimal_wide(s, n / 10);
    }
    let c = char_of_digit((n % 10) as u64);
    push_char(s, c);
    proof {
        if n >= 10 {
            assert(old(s)@ + decimal(n as nat) =~= old(s)@ + decimal((n / 10) as nat) + seq![c]);
        } else {
            assert(old(s)@ + decimal(n as nat) =~= old(s)@.push(c));
        }
    }
}

/// Appends `n` thousandths as `{:.1}` writes the `f32` nearest to them (see
/// [`tenths_text`]).
pub fn push_tenths(s: &mut String, n: Milli)
    ensures
        final(s)@ == old(s)@ + tenths_text(n as nat),
{
    let t = f32_tenths_v(n);
    push_decimal_wide(s, t / 10);
    push_char(s, '.');
    let c = char_of_digit((t % 10) as u64);
    push_char(s, c);
    assert(s@ =~= old(s)@ + tenths_text(n as nat));
}

} // verus!
