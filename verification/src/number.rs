//! Decimal numerals in the instruction text.
//!
//! Two kinds occur: unsigned integers after a comment keyword, and signed
//! decimal numbers after an axis letter. A decimal number may have a
//! fraction and an exponent; it is read as a fixed-point number, an integer
//! count of millionths.

use vstd::prelude::*;

verus! {

/// The largest magnitude of a fixed-point number, in millionths.
pub const MAX_FIXED: i64 = 1_000_000_000_000_000_000;

/// Decimal places of a fixed-point number: it counts millionths.
pub const FIXED_PLACES: u32 = 6;

/// The largest magnitude of an exponent that is read digit by digit; a
/// larger one moves any digit out of the range of fixed-point numbers.
pub const MAX_EXPONENT: u128 = 1_000_000_000_000_000_000_000_000_000_000;

/// Whether `b` is an ASCII decimal digit.
pub open spec fn is_digit(b: u8) -> bool {
    '0' as u8 <= b <= '9' as u8
}

/// The value of the digit `b`.
pub open spec fn digit_value(b: u8) -> nat {
    if is_digit(b) {
        (b - '0' as u8) as nat
    } else {
        0
    }
}

/// Whether every byte of `s` is a decimal digit.
pub open spec fn all_digits(s: Seq<u8>) -> bool {
    forall|i: int| 0 <= i < s.len() ==> is_digit(#[trigger] s[i])
}

/// The number that the digits of `s` spell; zero for no digits.
pub open spec fn digits_value(s: Seq<u8>) -> nat
    decreases s.len(),
{
    if s.len() == 0 {
        0
    } else {
        digits_value(s.drop_last()) * 10 + digit_value(s.last())
    }
}

/// Ten to the power `n`.
pub open spec fn pow10(n: nat) -> nat
    decreases n,
{
    if n == 0 {
        1
    } else {
        10 * pow10((n - 1) as nat)
    }
}

/// The text without a leading plus sign.
pub open spec fn unsigned_body(s: Seq<u8>) -> Seq<u8> {
    if s.len() > 0 && s[0] == '+' as u8 {
        s.skip(1)
    } else {
        s
    }
}

/// The unsigned integer that `s` spells: an optional plus sign and then one
/// or more digits. `None` for any other text.
pub open spec fn unsigned_value(s: Seq<u8>) -> Option<nat> {
    let body = unsigned_body(s);
    if body.len() > 0 && all_digits(body) {
        Some(digits_value(body))
    } else {
        None
    }
}

/// The 32-bit unsigned integer that `s` spells, or `None` where `s` is no
/// unsigned integer or spells one that does not fit.
pub open spec fn u32_value(s: Seq<u8>) -> Option<u32> {
    match unsigned_value(s) {
        Some(v) => if v <= u32::MAX {
            Some(v as u32)
        } else {
            None
        },
        None => None,
    }
}

/// The index of the first byte of `s` that is `a` or `b`, or the length of
/// `s` where it has neither.
pub open spec fn first_of(s: Seq<u8>, a: u8, b: u8) -> int
    decreases s.len(),
{
    if s.len() == 0 || s[0] == a || s[0] == b {
        0
    } else {
        1 + first_of(s.drop_first(), a, b)
    }
}

/// The index of the first decimal point in `s`, or the length of `s` where
/// it has none.
pub open spec fn point_index(s: Seq<u8>) -> int {
    first_of(s, '.' as u8, '.' as u8)
}

/// The index of the first exponent letter in `s`, `e` or `E`, or the length
/// of `s` where it has none.
pub open spec fn exponent_index(s: Seq<u8>) -> int {
    first_of(s, 'e' as u8, 'E' as u8)
}

/// Whether the text starts with a minus sign.
pub open spec fn is_negative(s: Seq<u8>) -> bool {
    s.len() > 0 && s[0] == '-' as u8
}

/// The text without a leading sign.
pub open spec fn signed_body(s: Seq<u8>) -> Seq<u8> {
    if s.len() > 0 && (s[0] == '+' as u8 || s[0] == '-' as u8) {
        s.skip(1)
    } else {
        s
    }
}

/// The part of an unsigned number before its exponent letter: all of it
/// where it has none.
pub open spec fn mantissa_text(body: Seq<u8>) -> Seq<u8> {
    body.take(exponent_index(body))
}

/// Whether an unsigned number has an exponent letter.
pub open spec fn has_exponent(body: Seq<u8>) -> bool {
    exponent_index(body) < body.len()
}

/// The part of an unsigned number after its exponent letter; empty where
/// it has none.
pub open spec fn exponent_text(body: Seq<u8>) -> Seq<u8> {
    if has_exponent(body) {
        body.skip(exponent_index(body) + 1)
    } else {
        Seq::empty()
    }
}

/// The digits before the decimal point of a mantissa.
pub open spec fn whole_digits(mantissa: Seq<u8>) -> Seq<u8> {
    mantissa.take(point_index(mantissa))
}

/// The digits after the decimal point of a mantissa; none where it has no
/// decimal point.
pub open spec fn fraction_digits(mantissa: Seq<u8>) -> Seq<u8> {
    if point_index(mantissa) < mantissa.len() {
        mantissa.skip(point_index(mantissa) + 1)
    } else {
        Seq::empty()
    }
}

/// All digits of a mantissa, those before the decimal point and then those
/// after it.
pub open spec fn mantissa_digits(mantissa: Seq<u8>) -> Seq<u8> {
    whole_digits(mantissa) + fraction_digits(mantissa)
}

/// Whether `t` is an exponent: an optional sign and then one or more
/// digits.
pub open spec fn is_exponent(t: Seq<u8>) -> bool {
    signed_body(t).len() > 0 && all_digits(signed_body(t))
}

/// The integer that the exponent `t` spells; zero for an empty text.
pub open spec fn exponent_value(t: Seq<u8>) -> int {
    if is_negative(t) {
        -(digits_value(signed_body(t)) as int)
    } else {
        digits_value(signed_body(t)) as int
    }
}

/// Whether `s` is a decimal number: an optional sign; then digits with
/// optionally a decimal point among, before or after them, at least one
/// digit in all; then optionally an exponent letter, `e` or `E`, with an
/// optional sign and one or more digits.
pub open spec fn is_number(s: Seq<u8>) -> bool {
    let body = signed_body(s);
    let mantissa = mantissa_text(body);
    &&& all_digits(whole_digits(mantissa))
    &&& all_digits(fraction_digits(mantissa))
    &&& mantissa_digits(mantissa).len() > 0
    &&& has_exponent(body) ==> is_exponent(exponent_text(body))
}

/// The number `digits` times ten to the power `shift`, rounded down.
pub open spec fn scaled(digits: nat, shift: int) -> nat {
    if shift >= 0 {
        digits * pow10(shift as nat)
    } else {
        digits / pow10((-shift) as nat)
    }
}

/// The magnitude of the decimal number `s` in millionths, rounded towards
/// zero: the number that all digits of its mantissa spell, times ten to the
/// power of its exponent, less one for each digit after the decimal point,
/// plus six for the millionths.
pub open spec fn number_magnitude(s: Seq<u8>) -> nat {
    let body = signed_body(s);
    let mantissa = mantissa_text(body);
    scaled(
        digits_value(mantissa_digits(mantissa)),
        exponent_value(exponent_text(body)) - fraction_digits(mantissa).len() + FIXED_PLACES,
    )
}

/// The fixed-point number that `s` spells, in millionths, or `None` where
/// `s` is no decimal number or its magnitude is above [`MAX_FIXED`].
pub open spec fn fixed_value(s: Seq<u8>) -> Option<i64> {
    if is_number(s) && number_magnitude(s) <= MAX_FIXED {
        if is_negative(s) {
            Some((-(number_magnitude(s) as int)) as i64)
        } else {
            Some(number_magnitude(s) as i64)
        }
    } else {
        None
    }
}

/// The number that `s` spells when its digits are written after those of
/// `start`.
pub open spec fn appended(start: nat, s: Seq<u8>) -> nat {
    start * pow10(s.len()) + digits_value(s)
}

/// Reading one digit more multiplies by ten and adds the digit.
pub proof fn lemma_digits_value_step(s: Seq<u8>, k: int)
    requires
        0 <= k < s.len(),
    ensures
        digits_value(s.take(k + 1)) == digits_value(s.take(k)) * 10 + digit_value(s[k]),
{
    assert(s.take(k + 1).drop_last() =~= s.take(k));
}

/// A prefix of the digits spells no more than all of them.
pub proof fn lemma_digits_value_prefix(s: Seq<u8>, k: int)
    requires
        0 <= k <= s.len(),
    ensures
        digits_value(s.take(k)) <= digits_value(s),
    decreases s.len() - k,
{
    if k < s.len() {
        lemma_digits_value_step(s, k);
        lemma_digits_value_prefix(s, k + 1);
    } else {
        assert(s.take(k) =~= s);
    }
}

/// The first `a` or `b` is at `k` where no byte before `k` is one of them
/// and the text ends at `k` or has one of them there.
pub proof fn lemma_first_of(s: Seq<u8>, a: u8, b: u8, k: int)
    requires
        0 <= k <= s.len(),
        forall|i: int| 0 <= i < k ==> s[i] != a && s[i] != b,
        k == s.len() || s[k] == a || s[k] == b,
    ensures
        first_of(s, a, b) == k,
    decreases k,
{
    if k > 0 {
        let rest = s.drop_first();
        assert forall|i: int| 0 <= i < k - 1 implies rest[i] != a && rest[i] != b by {
            assert(rest[i] == s[i + 1]);
        }
        lemma_first_of(rest, a, b, k - 1);
    }
}

/// Ten to any power is at least one, and ten times the power before.
pub proof fn lemma_pow10_step(n: nat)
    ensures
        pow10(n) >= 1,
        pow10(n + 1) == 10 * pow10(n),
    decreases n,
{
    if n > 0 {
        lemma_pow10_step((n - 1) as nat);
    }
}

/// Ten to a sum of powers is the product of the powers of ten.
pub proof fn lemma_pow10_add(a: nat, b: nat)
    ensures
        pow10(a + b) == pow10(a) * pow10(b),
    decreases a,
{
    if a > 0 {
        lemma_pow10_add((a - 1) as nat, b);
        assert(pow10(a + b) == 10 * pow10((a - 1 + b) as nat));
        assert(10 * (pow10((a - 1) as nat) * pow10(b)) == (10 * pow10((a - 1) as nat)) * pow10(b))
            by (nonlinear_arith);
    } else {
        assert(pow10(a) * pow10(b) == pow10(b)) by (nonlinear_arith)
            requires
                pow10(a) == 1,
        ;
    }
}

/// A larger power of ten is no smaller.
pub proof fn lemma_pow10_monotone(a: nat, b: nat)
    requires
        a <= b,
    ensures
        pow10(a) <= pow10(b),
{
    lemma_pow10_add(a, (b - a) as nat);
    lemma_pow10_step((b - a) as nat);
    lemma_pow10_step(a);
    assert(pow10(a) <= pow10(a) * pow10((b - a) as nat)) by (nonlinear_arith)
        requires
            pow10(a) >= 1,
            pow10((b - a) as nat) >= 1,
    ;
}

/// Ten to the nineteenth power is above the largest fixed-point number.
pub proof fn lemma_pow10_19()
    ensures
        pow10(19) == 10_000_000_000_000_000_000,
{
    reveal_with_fuel(pow10, 20);
}

/// Digits spell less than ten to their number.
pub proof fn lemma_digits_value_bound(s: Seq<u8>)
    ensures
        digits_value(s) < pow10(s.len()),
    decreases s.len(),
{
    if s.len() > 0 {
        lemma_digits_value_bound(s.drop_last());
        lemma_pow10_step(s.drop_last().len());
    }
}

/// Digits written after other digits: the first spell ten to the number of
/// the second times as much as alone.
pub proof fn lemma_digits_value_concat(a: Seq<u8>, b: Seq<u8>)
    ensures
        digits_value(a + b) == appended(digits_value(a), b),
    decreases b.len(),
{
    if b.len() == 0 {
        assert(a + b =~= a);
        assert(digits_value(a) * pow10(0) == digits_value(a)) by (nonlinear_arith)
            requires
                pow10(0) == 1,
        ;
    } else {
        let front = b.drop_last();
        assert((a + b).drop_last() =~= a + front);
        assert((a + b).last() == b.last());
        lemma_digits_value_concat(a, front);
        lemma_pow10_step(front.len());
        let p = pow10(front.len());
        let x = digits_value(a);
        let y = digits_value(front);
        assert((x * p + y) * 10 == x * (10 * p) + y * 10) by (nonlinear_arith);
    }
}

/// Writing one digit more multiplies by ten and adds the digit.
pub proof fn lemma_appended_step(start: nat, s: Seq<u8>, k: int)
    requires
        0 <= k < s.len(),
    ensures
        appended(start, s.take(k + 1)) == appended(start, s.take(k)) * 10 + digit_value(s[k]),
{
    lemma_digits_value_step(s, k);
    lemma_pow10_step(k as nat);
    let p = pow10(k as nat);
    let y = digits_value(s.take(k));
    assert((start * p + y) * 10 == start * (10 * p) + y * 10) by (nonlinear_arith);
}

/// Fewer digits written spell no more.
pub proof fn lemma_appended_prefix(start: nat, s: Seq<u8>, k: int)
    requires
        0 <= k <= s.len(),
    ensures
        appended(start, s.take(k)) <= appended(start, s),
    decreases s.len() - k,
{
    if k < s.len() {
        lemma_appended_step(start, s, k);
        lemma_appended_prefix(start, s, k + 1);
    } else {
        assert(s.take(k) =~= s);
    }
}

/// Dropping the last digits divides by ten to their number, rounding down.
pub proof fn lemma_digits_value_quotient(s: Seq<u8>, k: int)
    requires
        0 <= k <= s.len(),
    ensures
        digits_value(s) / pow10((s.len() - k) as nat) == digits_value(s.take(k)),
{
    let front = s.take(k);
    let back = s.skip(k);
    assert(front + back =~= s);
    lemma_digits_value_concat(front, back);
    lemma_digits_value_bound(back);
    lemma_pow10_step(back.len());
    let p = pow10(back.len());
    let q = digits_value(front);
    let r = digits_value(back);
    assert((q * p + r) / p == q) by (nonlinear_arith)
        requires
            0 <= r < p,
            0 <= q,
    ;
}

/// Reads a 32-bit unsigned integer: an optional plus sign and then one or
/// more digits.
pub fn parse_u32(text: &[u8]) -> (value: Option<u32>)
    ensures
        value == u32_value(text@),
{
    let n: usize = text.len();
    let start: usize = if n > 0 && text[0] == '+' as u8 {
        1
    } else {
        0
    };
    if start == n {
        return None;
    }
    let ghost body = unsigned_body(text@);
    let mut i: usize = start;
    let mut value: u64 = 0;
    while i < n
        invariant
            start <= i <= n,
            n == text@.len(),
            body == unsigned_body(text@),
            body == text@.skip(start as int),
            all_digits(body.take(i - start)),
            value == digits_value(body.take(i - start)),
            value <= u32::MAX,
        decreases n - i,
    {
        let b: u8 = text[i];
        if b < '0' as u8 || b > '9' as u8 {
            assert(!is_digit(body[i - start]));
            return None;
        }
        let next: u64 = value * 10 + (b - '0' as u8) as u64;
        proof {
            lemma_digits_value_step(body, i - start);
        }
        if next > u32::MAX as u64 {
            proof {
                lemma_digits_value_prefix(body, i - start + 1);
            }
            return None;
        }
        assert(all_digits(body.take(i - start + 1))) by {
            assert forall|j: int| 0 <= j < i - start + 1 implies is_digit(
                #[trigger] body.take(i - start + 1)[j],
            ) by {
                if j < i - start {
                    assert(body.take(i - start)[j] == body[j]);
                }
            }
        }
        value = next;
        i += 1;
    }
    assert(body.take(n - start) =~= body);
    Some(value as u32)
}

/// The index of the first byte of `text` from `from` up to `to` that is `a`
/// or `b`, or `to` where none is.
fn find_first(text: &[u8], from: usize, to: usize, a: u8, b: u8) -> (at: usize)
    requires
        from <= to <= text@.len(),
    ensures
        from <= at <= to,
        at - from == first_of(text@.subrange(from as int, to as int), a, b),
{
    let mut i: usize = from;
    while i < to && text[i] != a && text[i] != b
        invariant
            from <= i <= to <= text@.len(),
            forall|j: int| from <= j < i ==> text@[j] != a && text@[j] != b,
        decreases to - i,
    {
        i += 1;
    }
    proof {
        lemma_first_of(text@.subrange(from as int, to as int), a, b, i - from);
    }
    i
}

/// Whether every byte of `text` from `from` up to `to` is a digit.
fn all_digits_in(text: &[u8], from: usize, to: usize) -> (ok: bool)
    requires
        from <= to <= text@.len(),
    ensures
        ok == all_digits(text@.subrange(from as int, to as int)),
{
    let ghost part = text@.subrange(from as int, to as int);
    let mut i: usize = from;
    while i < to
        invariant
            from <= i <= to <= text@.len(),
            part == text@.subrange(from as int, to as int),
            forall|j: int| 0 <= j < i - from ==> is_digit(#[trigger] part[j]),
        decreases to - i,
    {
        let b: u8 = text[i];
        if b < '0' as u8 || b > '9' as u8 {
            assert(!is_digit(part[i - from]));
            return false;
        }
        i += 1;
    }
    true
}

/// Writes the digits of `text` from `from` up to `to` after those of
/// `start`. Gives the number that they then spell, or `None` where it is
/// above `cap`.
fn append_digits(text: &[u8], from: usize, to: usize, start: u128, cap: u128) -> (value: Option<
    u128,
>)
    requires
        from <= to <= text@.len(),
        all_digits(text@.subrange(from as int, to as int)),
        start <= cap <= 1_000_000_000_000_000_000_000_000_000_000_000_000,
    ensures
        match value {
            Some(v) => v == appended(start as nat, text@.subrange(from as int, to as int)) && v
                <= cap,
            None => appended(start as nat, text@.subrange(from as int, to as int)) > cap,
        },
{
    let ghost part = text@.subrange(from as int, to as int);
    let mut i: usize = from;
    let mut sum: u128 = start;
    assert(appended(start as nat, part.take(0)) == start) by {
        assert(start * pow10(0) == start) by (nonlinear_arith)
            requires
                pow10(0) == 1,
        ;
    }
    while i < to
        invariant
            from <= i <= to <= text@.len(),
            part == text@.subrange(from as int, to as int),
            all_digits(part),
            sum == appended(start as nat, part.take(i - from)),
            sum <= cap <= 1_000_000_000_000_000_000_000_000_000_000_000_000,
        decreases to - i,
    {
        let b: u8 = text[i];
        proof {
            assert(part[i - from] == b);
            assert(is_digit(part[i - from]));
            lemma_appended_step(start as nat, part, i - from);
        }
        let next: u128 = sum * 10 + (b - '0' as u8) as u128;
        if next > cap {
            proof {
                lemma_appended_prefix(start as nat, part, i - from + 1);
            }
            return None;
        }
        sum = next;
        i += 1;
    }
    assert(part.take(to - from) =~= part);
    Some(sum)
}

/// The number `value` times ten to the power `count`, or `None` where it is
/// above `cap`.
fn times_pow10(value: u128, count: u128, cap: u128) -> (product: Option<u128>)
    requires
        value <= cap <= 1_000_000_000_000_000_000_000_000_000_000_000_000,
    ensures
        match product {
            Some(v) => v == value * pow10(count as nat) && v <= cap,
            None => value * pow10(count as nat) > cap,
        },
{
    if value == 0 {
        assert(0 * pow10(count as nat) == 0) by (nonlinear_arith);
        return Some(0);
    }
    let mut sum: u128 = value;
    let mut done: u128 = 0;
    assert(value * pow10(0) == value) by (nonlinear_arith)
        requires
            pow10(0) == 1,
    ;
    while done < count
        invariant
            done <= count,
            sum == value * pow10(done as nat),
            1 <= value,
            sum <= cap <= 1_000_000_000_000_000_000_000_000_000_000_000_000,
        decreases count - done,
    {
        proof {
            lemma_pow10_step(done as nat);
            assert(value * pow10((done + 1) as nat) == (value * pow10(done as nat)) * 10)
                by (nonlinear_arith)
                requires
                    pow10((done + 1) as nat) == 10 * pow10(done as nat),
            ;
        }
        let next: u128 = sum * 10;
        if next > cap {
            proof {
                lemma_pow10_monotone((done + 1) as nat, count as nat);
                assert(value * pow10((done + 1) as nat) <= value * pow10(count as nat))
                    by (nonlinear_arith)
                    requires
                        pow10((done + 1) as nat) <= pow10(count as nat),
                        value >= 1,
                ;
            }
            return None;
        }
        sum = next;
        done += 1;
    }
    Some(sum)
}

/// Reads the exponent that `text` holds from `from` to its end: whether it
/// is negative, and its magnitude unless that is above [`MAX_EXPONENT`].
/// Gives `None` where there is no exponent there.
fn read_exponent(text: &[u8], from: usize) -> (found: Option<(bool, Option<u128>)>)
    requires
        from <= text@.len(),
    ensures
        match found {
            Some((negative, magnitude)) => {
                &&& is_exponent(text@.skip(from as int))
                &&& negative == is_negative(text@.skip(from as int))
                &&& match magnitude {
                    Some(m) => m == digits_value(signed_body(text@.skip(from as int))) && m
                        <= MAX_EXPONENT,
                    None => digits_value(signed_body(text@.skip(from as int))) > MAX_EXPONENT,
                }
            },
            None => !is_exponent(text@.skip(from as int)),
        },
{
    let n: usize = text.len();
    let ghost part = text@.skip(from as int);
    let negative: bool = from < n && text[from] == '-' as u8;
    let first: usize = if from < n && (text[from] == '+' as u8 || text[from] == '-' as u8) {
        from + 1
    } else {
        from
    };
    assert(signed_body(part) =~= text@.subrange(first as int, n as int));
    if first == n || !all_digits_in(text, first, n) {
        return None;
    }
    let magnitude: Option<u128> = append_digits(text, first, n, 0, MAX_EXPONENT);
    assert(appended(0, signed_body(part)) == digits_value(signed_body(part))) by {
        assert(0 * pow10(signed_body(part).len()) == 0) by (nonlinear_arith);
    }
    Some((negative, magnitude))
}

/// A number of no more digits than are dropped from it is scaled to zero.
proof fn lemma_scaled_to_zero(digits: Seq<u8>, shift: int)
    requires
        -shift >= digits.len(),
    ensures
        scaled(digits_value(digits), shift) == 0,
{
    if shift < 0 {
        lemma_digits_value_bound(digits);
        lemma_pow10_monotone(digits.len(), (-shift) as nat);
        let d = digits_value(digits);
        let p = pow10((-shift) as nat);
        assert(d / p == 0) by (nonlinear_arith)
            requires
                0 <= d < p,
        ;
    } else {
        assert(digits.len() == 0);
        assert(0 * pow10(shift as nat) == 0) by (nonlinear_arith);
    }
}

/// A number from which fewer digits are dropped than it has is scaled to
/// what its other digits spell.
proof fn lemma_scaled_to_prefix(digits: Seq<u8>, shift: int)
    requires
        shift < 0,
        -shift <= digits.len(),
    ensures
        scaled(digits_value(digits), shift) == digits_value(digits.take(digits.len() + shift)),
{
    lemma_digits_value_quotient(digits, digits.len() + shift);
}

/// A number scaled by at least `least` powers of ten is no less than it is
/// when scaled by `least`.
proof fn lemma_scaled_at_least(value: nat, shift: int, least: nat)
    requires
        shift >= least,
    ensures
        scaled(value, shift) >= value * pow10(least),
        value * pow10(least) >= value,
{
    lemma_pow10_monotone(least, shift as nat);
    lemma_pow10_step(least);
    assert(value * pow10(shift as nat) >= value * pow10(least)) by (nonlinear_arith)
        requires
            pow10(shift as nat) >= pow10(least),
    ;
    assert(value * pow10(least) >= value) by (nonlinear_arith)
        requires
            pow10(least) >= 1,
    ;
}

/// The digits of a mantissa, which stand in `text` from `start` up to
/// `point` and from `first` up to `end`, times ten to the power of the
/// exponent, less one for each digit after the decimal point, plus six.
/// Gives `None` where that is above [`MAX_FIXED`]. The exponent is
/// `exponent`, negative or not as `negative` says, or is above
/// [`MAX_EXPONENT`] in magnitude where `exponent` is `None`.
fn scale_mantissa(
    text: &[u8],
    start: usize,
    point: usize,
    first: usize,
    end: usize,
    negative: bool,
    exponent: Option<u128>,
    Ghost(power): Ghost<int>,
) -> (value: Option<u128>)
    requires
        start <= point <= first <= end <= text@.len(),
        all_digits(text@.subrange(start as int, point as int)),
        all_digits(text@.subrange(first as int, end as int)),
        negative ==> power <= 0,
        !negative ==> power >= 0,
        exponent matches Some(m) ==> m <= MAX_EXPONENT && (m == power || m == -power),
        exponent is None ==> power > MAX_EXPONENT || -power > MAX_EXPONENT,
    ensures
        match value {
            Some(v) => v <= MAX_FIXED && v == scaled(
                digits_value(
                    text@.subrange(start as int, point as int) + text@.subrange(
                        first as int,
                        end as int,
                    ),
                ),
                power - (end - first) + 6,
            ),
            None => scaled(
                digits_value(
                    text@.subrange(start as int, point as int) + text@.subrange(
                        first as int,
                        end as int,
                    ),
                ),
                power - (end - first) + 6,
            ) > MAX_FIXED,
        },
{
    let ghost whole = text@.subrange(start as int, point as int);
    let ghost fraction = text@.subrange(first as int, end as int);
    let ghost digits = whole + fraction;
    let ghost shift: int = power - (end - first) + 6;
    let cap: u128 = MAX_FIXED as u128;
    let whole_len: usize = point - start;
    let fraction_len: usize = end - first;
    let total: usize = whole_len + fraction_len;
    proof {
        lemma_digits_value_concat(whole, fraction);
        assert(appended(0, whole) == digits_value(whole)) by {
            assert(0 * pow10(whole.len()) == 0) by (nonlinear_arith);
        }
        lemma_pow10_19();
    }
    let kept: i128 = match exponent {
        Some(m) => {
            let power_here: i128 = if negative {
                -(m as i128)
            } else {
                m as i128
            };
            power_here + FIXED_PLACES as i128 + whole_len as i128
        },
        None => {
            if negative {
                -1
            } else {
                total as i128 + 19
            }
        },
    };
    // `kept` is the number of leading digits that count where it is within
    // the digits; beyond them, each one more is a zero written after them.
    if kept <= 0 {
        proof {
            lemma_scaled_to_zero(digits, shift);
        }
        return Some(0);
    }
    if kept < total as i128 {
        let keep: usize = kept as usize;
        proof {
            lemma_scaled_to_prefix(digits, shift);
            assert(digits.len() + shift == keep);
        }
        if keep <= whole_len {
            assert(digits.take(keep as int) =~= text@.subrange(start as int, start + keep));
            let value: Option<u128> = append_digits(text, start, start + keep, 0, cap);
            assert(appended(0, digits.take(keep as int)) == digits_value(digits.take(keep as int)))
                by {
                assert(0 * pow10(digits.take(keep as int).len()) == 0) by (nonlinear_arith);
            }
            return value;
        }
        let ghost part = text@.subrange(first as int, first + keep - whole_len);
        assert(digits.take(keep as int) =~= whole + part);
        proof {
            lemma_digits_value_concat(whole, part);
            lemma_pow10_step(part.len());
            assert(digits_value(whole) * pow10(part.len()) >= digits_value(whole))
                by (nonlinear_arith)
                requires
                    pow10(part.len()) >= 1,
            ;
        }
        let before: u128 = match append_digits(text, start, point, 0, cap) {
            Some(v) => v,
            None => {
                return None;
            },
        };
        assert(all_digits(part)) by {
            assert forall|j: int| 0 <= j < part.len() implies is_digit(#[trigger] part[j]) by {
                assert(part[j] == fraction[j]);
            }
        }
        return append_digits(text, first, first + (keep - whole_len), before, cap);
    }
    let ghost least: nat = if exponent is Some {
        shift as nat
    } else {
        19
    };
    proof {
        lemma_scaled_at_least(digits_value(digits), shift, least);
        lemma_pow10_step(fraction.len());
        assert(digits_value(whole) * pow10(fraction.len()) >= digits_value(whole))
            by (nonlinear_arith)
            requires
                pow10(fraction.len()) >= 1,
        ;
    }
    let before: u128 = match append_digits(text, start, point, 0, cap) {
        Some(v) => v,
        None => {
            return None;
        },
    };
    let all: u128 = match append_digits(text, first, end, before, cap) {
        Some(v) => v,
        None => {
            return None;
        },
    };
    let zeros: u128 = (kept - total as i128) as u128;
    let product: Option<u128> = times_pow10(all, zeros, cap);
    proof {
        if exponent is None {
            assert(zeros == 19);
            if all > 0 {
                assert(all * pow10(19) > MAX_FIXED) by (nonlinear_arith)
                    requires
                        all >= 1,
                        pow10(19) == 10_000_000_000_000_000_000,
                ;
            } else {
                assert(scaled(0, shift) == 0) by {
                    assert(0 * pow10(shift as nat) == 0) by (nonlinear_arith);
                }
                assert(0 * pow10(19) == 0) by (nonlinear_arith);
            }
        } else {
            assert(zeros == shift);
        }
    }
    product
}

/// Finds the parts of the number that `text` holds from `start` to its
/// end: where the digits before the decimal point end, where those after it
/// start, and where the mantissa ends.
fn split_number(text: &[u8], start: usize) -> (parts: (usize, usize, usize))
    requires
        start <= text@.len(),
    ensures
        start <= parts.0 <= parts.1 <= parts.2 <= text@.len(),
        whole_digits(mantissa_text(text@.skip(start as int))) == text@.subrange(
            start as int,
            parts.0 as int,
        ),
        fraction_digits(mantissa_text(text@.skip(start as int))) == text@.subrange(
            parts.1 as int,
            parts.2 as int,
        ),
        has_exponent(text@.skip(start as int)) <==> parts.2 < text@.len(),
        parts.2 < text@.len() ==> exponent_text(text@.skip(start as int)) == text@.skip(
            parts.2 + 1,
        ),
        parts.2 >= text@.len() ==> exponent_text(text@.skip(start as int)) == Seq::<u8>::empty(),
{
    let n: usize = text.len();
    let ghost body = text@.skip(start as int);
    assert(body =~= text@.subrange(start as int, n as int));
    let end: usize = find_first(text, start, n, 'e' as u8, 'E' as u8);
    let ghost mantissa = mantissa_text(body);
    assert(mantissa =~= text@.subrange(start as int, end as int));
    let point: usize = find_first(text, start, end, '.' as u8, '.' as u8);
    let first: usize = if point < end {
        point + 1
    } else {
        end
    };
    assert(whole_digits(mantissa) =~= text@.subrange(start as int, point as int));
    assert(fraction_digits(mantissa) =~= text@.subrange(first as int, end as int));
    if end < n {
        assert(exponent_text(body) =~= text@.skip(end + 1));
    }
    (point, first, end)
}

/// Reads a fixed-point number: an optional sign; digits with optionally a
/// decimal point, at least one digit in all; and optionally an exponent
/// letter with an optional sign and digits. The result counts millionths
/// and is rounded towards zero.
pub fn parse_fixed(text: &[u8]) -> (value: Option<i64>)
    ensures
        value == fixed_value(text@),
{
    let n: usize = text.len();
    let negative: bool = n > 0 && text[0] == '-' as u8;
    let start: usize = if n > 0 && (text[0] == '+' as u8 || text[0] == '-' as u8) {
        1
    } else {
        0
    };
    let ghost body = signed_body(text@);
    let ghost mantissa = mantissa_text(body);
    let ghost tail = exponent_text(body);
    assert(body == text@.skip(start as int)) by {
        assert(text@.skip(0) =~= text@);
    }
    let (point, first, end) = split_number(text, start);
    if !all_digits_in(text, start, point) {
        return None;
    }
    if !all_digits_in(text, first, end) {
        return None;
    }
    if point - start == 0 && end - first == 0 {
        return None;
    }
    let (negative_power, power): (bool, Option<u128>) = if end < n {
        match read_exponent(text, end + 1) {
            Some(found) => found,
            None => {
                return None;
            },
        }
    } else {
        (false, Some(0))
    };
    assert(is_number(text@));
    let magnitude: u128 = match scale_mantissa(
        text,
        start,
        point,
        first,
        end,
        negative_power,
        power,
        Ghost(exponent_value(tail)),
    ) {
        Some(v) => v,
        None => {
            return None;
        },
    };
    assert(magnitude == number_magnitude(text@));
    if negative {
        Some(-(magnitude as i64))
    } else {
        Some(magnitude as i64)
    }
}

} // verus!
