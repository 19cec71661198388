//! Rendering a signed 16-bit fixed-point value as decimal text, using only
//! fixed-size buffers.
//!
//! A raw value `raw` with `frac_bits` fractional bits stands for
//! `raw / 2^frac_bits`. The text is `[-]D+.D{1,P}`: an optional sign, the
//! integer part without leading zeros, a point, and between one and `P`
//! fractional digits, where `P` is the requested precision (3 when none is
//! given) capped at the six digits the buffer holds. Fractional digits stop
//! early once the remaining fraction is exactly zero.

use vstd::prelude::*;
use vstd::arithmetic::power2::{pow2, lemma2_to64, lemma_pow2_adds};
use vstd::arithmetic::div_mod::{lemma_fundamental_div_mod_converse, lemma_mod_mod};
use vstd::bits::{lemma_u16_shl_is_mul, lemma_u16_shr_is_div};

verus! {

/// Fractional digits used when no precision is requested.
pub const DEFAULT_PRECISION: usize = 3;

/// The most fractional digits ever emitted.
pub const MAX_FRACTION_DIGITS: usize = 6;

/// Room for a sign, five integer digits, the point and six fractional digits.
pub const FIXED_TEXT_CAPACITY: usize = 13;

/// `|raw|`, which for `i16::MIN` is `2^15`.
pub open spec fn magnitude(raw: i16) -> nat {
    if raw < 0 {
        (-(raw as int)) as nat
    } else {
        raw as nat
    }
}

/// The integer part of `|raw| / 2^f`.
pub open spec fn integer_part(raw: i16, f: nat) -> nat {
    magnitude(raw) / pow2(f)
}

/// The fractional bits of `|raw|`, as an integer below `2^f`.
pub open spec fn fraction_part(raw: i16, f: nat) -> nat {
    magnitude(raw) % pow2(f)
}

pub open spec fn ascii_digit(d: nat) -> u8 {
    (d + 48) as u8
}

pub open spec fn is_ascii_digit(b: u8) -> bool {
    48 <= b <= 57
}

/// Decimal digits of `n`, most significant first, without leading zeros
/// (`0` is the single digit `"0"`).
pub open spec fn decimal_digits(n: nat) -> Seq<u8>
    decreases n,
{
    if n < 10 {
        seq![ascii_digit(n)]
    } else {
        decimal_digits(n / 10).push(ascii_digit(n % 10))
    }
}

/// The next decimal digit of the fraction `r / 2^f`. With more than eleven
/// fractional bits, `10 * r` would not fit in 16 bits, so the lowest four
/// bits of `r` are dropped for this one digit.
pub open spec fn fraction_digit(r: nat, f: nat) -> nat {
    if f > 11 {
        (10 * (r / 16)) / pow2((f - 4) as nat)
    } else {
        (10 * r) / pow2(f)
    }
}

/// The fraction `r / 2^f` after its next decimal digit is taken off.
pub open spec fn fraction_rest(r: nat, f: nat) -> nat {
    (10 * r) % pow2(f)
}

/// At most `n` fractional digits of `r / 2^f`, stopping after the digit
/// that leaves a zero remainder.
pub open spec fn fraction_digits(r: nat, f: nat, n: nat) -> Seq<u8>
    decreases n,
{
    if n == 0 {
        seq![]
    } else if fraction_rest(r, f) == 0 || n == 1 {
        seq![ascii_digit(fraction_digit(r, f))]
    } else {
        seq![ascii_digit(fraction_digit(r, f))] + fraction_digits(fraction_rest(r, f), f, (n - 1) as nat)
    }
}

/// How many fractional digits at most: the requested precision (or the
/// default), at least one, at most `MAX_FRACTION_DIGITS`.
pub open spec fn digit_limit(precision: Option<usize>) -> nat {
    let p = match precision {
        Some(p) => p as nat,
        None => DEFAULT_PRECISION as nat,
    };
    if p == 0 {
        1
    } else if p > MAX_FRACTION_DIGITS {
        MAX_FRACTION_DIGITS as nat
    } else {
        p
    }
}

pub open spec fn sign_text(negative: bool) -> Seq<u8> {
    if negative {
        seq![45u8]
    } else {
        seq![]
    }
}

/// The full text for `raw` with `f` fractional bits.
pub open spec fn fixed_text(raw: i16, f: nat, precision: Option<usize>) -> Seq<u8> {
    sign_text(raw < 0) + decimal_digits(integer_part(raw, f)) + seq![46u8]
        + fraction_digits(fraction_part(raw, f), f, digit_limit(precision))
}

/// A rendered value: at most `FIXED_TEXT_CAPACITY` ASCII bytes held in place.
pub struct FixedText {
    bytes: [u8; 13],
    len: usize,
}

impl View for FixedText {
    type V = Seq<u8>;

    closed spec fn view(&self) -> Seq<u8> {
        self.bytes@.subrange(0, self.len as int)
    }
}

impl FixedText {
    #[verifier::type_invariant]
    spec fn inv(&self) -> bool {
        self.len <= FIXED_TEXT_CAPACITY
    }

    /// Number of bytes of text.
    pub fn len(&self) -> (r: usize)
        ensures
            r == self@.len(),
            r <= FIXED_TEXT_CAPACITY,
    {
        proof {
            use_type_invariant(self);
        }
        self.len
    }

    /// The text as a byte slice.
    pub fn as_bytes(&self) -> (r: &[u8])
        ensures
            r@ == self@,
    {
        proof {
            use_type_invariant(self);
        }
        vstd::slice::slice_subrange(vstd::array::array_as_slice(&self.bytes), 0, self.len)
    }
}

/// `1 << f` is `2^f`, and shifting and masking by it are division and
/// remainder.
proof fn lemma_shift_by_bits(m: u16, f: u16)
    requires
        f <= 15,
    ensures
        (1u16 << f) as nat == pow2(f as nat),
        (m >> f) as nat == m as nat / pow2(f as nat),
        (m & (((1u16 << f) - 1u16) as u16)) as nat == m as nat % pow2(f as nat),
{
    lemma2_to64();
    lemma_u16_shl_is_mul(1u16, f);
    assert(m >> f == m / (1u16 << f)) by (bit_vector)
        requires
            f <= 15,
    ;
    assert(m & ((1u16 << f) - 1u16) as u16 == m % (1u16 << f)) by (bit_vector)
        requires
            f <= 15,
    ;
}

/// `2^15` splits into the integer part `2^(15 - f)` and no fractional bits.
proof fn lemma_most_negative_split(f: nat)
    requires
        f <= 15,
    ensures
        32768nat / pow2(f) == pow2((15 - f) as nat),
        32768nat % pow2(f) == 0,
{
    lemma2_to64();
    lemma_pow2_adds(f, (15 - f) as nat);
    assert(f + (15 - f) as nat == 15);
    assert(pow2(f) * pow2((15 - f) as nat) == 32768);
    assert(pow2((15 - f) as nat) * pow2(f) == 32768) by (nonlinear_arith)
        requires
            pow2(f) * pow2((15 - f) as nat) == 32768,
    ;
    vstd::arithmetic::power2::lemma_pow2_pos(f);
    lemma_fundamental_div_mod_converse(32768, pow2(f) as int, pow2((15 - f) as nat) as int, 0);
}

/// Integer part and fractional bits of `|raw|`, each in 16 bits.
fn split_magnitude(raw: i16, frac_bits: u8) -> (r: (u16, u16))
    requires
        frac_bits <= 15,
    ensures
        r.0 as nat == integer_part(raw, frac_bits as nat),
        r.1 as nat == fraction_part(raw, frac_bits as nat),
{
    let f: u16 = frac_bits as u16;
    proof {
        lemma_shift_by_bits(0, f);
        lemma2_to64();
    }
    let frac_mask: u16 = (1u16 << f) - 1;
    if raw < 0 {
        if raw == i16::MIN {
            // -2^15 has no positive counterpart in 16 bits: its integer part
            // is exactly 2^(15 - f) and it has no fractional bits.
            let int_part: u16 = 1u16 << (15 - f);
            proof {
                lemma_shift_by_bits(0, (15 - f) as u16);
                lemma_most_negative_split(f as nat);
            }
            (int_part, 0)
        } else {
            let m: u16 = (-raw) as u16;
            proof {
                lemma_shift_by_bits(m, f);
            }
            (m >> f, m & frac_mask)
        }
    } else {
        let m: u16 = raw as u16;
        proof {
            lemma_shift_by_bits(m, f);
        }
        (m >> f, m & frac_mask)
    }
}

/// A magnitude of at most `2^15` has at most five decimal digits.
proof fn lemma_decimal_digits_len(n: nat)
    requires
        n <= 32768,
    ensures
        1 <= decimal_digits(n).len() <= 5,
{
    reveal_with_fuel(decimal_digits, 5);
}

/// Write the decimal digits of `int_part` at the end of `buf`, least
/// significant first, and return where they start. At least one cell is left
/// in front of them for a sign.
fn render_integer(int_part: u16, buf: &mut [u8; 6]) -> (start: usize)
    requires
        int_part <= 32768,
    ensures
        1 <= start <= 5,
        final(buf)@.subrange(start as int, 6) == decimal_digits(int_part as nat),
{
    let mut n: u16 = int_part;
    let mut i: usize = 6;
    proof {
        lemma_decimal_digits_len(int_part as nat);
    }
    loop
        invariant
            2 <= i <= 6,
            1 <= n <= 32768 || (n == 0 && i == 6),
            n <= int_part,
            decimal_digits(int_part as nat) == decimal_digits(n as nat) + buf@.subrange(i as int, 6),
            1 <= decimal_digits(int_part as nat).len() <= 5,
        decreases i,
    {
        let tens: u8 = (n % 10) as u8;
        proof {
            reveal_with_fuel(decimal_digits, 2);
            assert(decimal_digits(n as nat) == decimal_digits((n / 10) as nat) + seq![ascii_digit((n % 10) as nat)]
                || (n < 10 && decimal_digits(n as nat) == seq![ascii_digit(n as nat)]));
        }
        let ghost before = buf@;
        buf[i - 1] = tens + 48;
        n = n / 10;
        i = i - 1;
        proof {
            assert(buf@.subrange(i as int, 6) == seq![ascii_digit((tens as nat))] + before.subrange(i + 1, 6));
        }
        if n == 0 {
            return i;
        }
        proof {
            assert(decimal_digits(n as nat).len() >= 1) by {
                reveal_with_fuel(decimal_digits, 1);
            }
        }
    }
}

/// The next fractional digit and remainder, computed in 16 bits as
/// `fraction_digit` and `fraction_rest` state them.
fn next_fraction_digit(r: u16, frac_bits: u8, frac_mask: u16) -> (out: (u8, u16))
    requires
        frac_bits <= 15,
        frac_mask as nat == pow2(frac_bits as nat) - 1,
        (r as nat) < pow2(frac_bits as nat),
    ensures
        out.0 as nat == fraction_digit(r as nat, frac_bits as nat),
        out.0 < 10,
        out.1 as nat == fraction_rest(r as nat, frac_bits as nat),
        (out.1 as nat) < pow2(frac_bits as nat),
{
    let f: u16 = frac_bits as u16;
    proof {
        lemma2_to64();
    }
    let mut tmp_frac: u16 = r;
    let mut tmp_bits: u16 = f;
    // Multiplying by ten needs four spare bits: with more than eleven
    // fractional bits, drop the lowest four for this digit.
    if f > 11 {
        proof {
            lemma_pow2_adds(4, (f - 4) as nat);
        }
        tmp_frac = tmp_frac / 16;
        tmp_bits = tmp_bits - 4;
    }
    assert(tmp_frac < 2048);
    let scaled: u16 = tmp_frac * 10;
    let digit: u16 = scaled >> tmp_bits;
    proof {
        lemma_u16_shr_is_div(scaled, tmp_bits);
        let p = pow2(tmp_bits as nat) as int;
        assert((tmp_frac as int) < p);
        assert((10 * tmp_frac as int) / p < 10) by (nonlinear_arith)
            requires
                0 <= tmp_frac < p,
        ;
    }
    let rest: u16 = r.wrapping_mul(10) & frac_mask;
    proof {
        lemma_shift_by_bits(r.wrapping_mul(10), f);
        lemma_pow2_adds(f as nat, (16 - f) as nat);
        lemma_mod_mod(10 * r as int, pow2(f as nat) as int, pow2((16 - f) as nat) as int);
    }
    (digit as u8, rest)
}

/// Write at most `limit` fractional digits of `frac / 2^frac_bits` at the
/// start of `buf`, stopping after a digit that leaves a zero remainder, and
/// return how many were written.
fn render_fraction(frac: u16, frac_bits: u8, limit: usize, buf: &mut [u8; 6]) -> (end: usize)
    requires
        frac_bits <= 15,
        (frac as nat) < pow2(frac_bits as nat),
        1 <= limit <= 6,
    ensures
        1 <= end <= limit,
        final(buf)@.subrange(0, end as int) == fraction_digits(frac as nat, frac_bits as nat, limit as nat),
{
    proof {
        lemma_shift_by_bits(0, frac_bits as u16);
        lemma2_to64();
    }
    let frac_mask: u16 = (1u16 << (frac_bits as u16)) - 1;
    let mut r: u16 = frac;
    let mut k: usize = 0;
    loop
        invariant
            k < limit <= 6,
            frac_bits <= 15,
            frac_mask as nat == pow2(frac_bits as nat) - 1,
            (r as nat) < pow2(frac_bits as nat),
            buf@.subrange(0, k as int) + fraction_digits(r as nat, frac_bits as nat, (limit - k) as nat)
                == fraction_digits(frac as nat, frac_bits as nat, limit as nat),
        decreases limit - k,
    {
        let (digit, rest) = next_fraction_digit(r, frac_bits, frac_mask);
        let ghost before = buf@;
        buf[k] = digit + 48;
        proof {
            assert(buf@.subrange(0, k + 1) == before.subrange(0, k as int).push(ascii_digit(digit as nat)));
        }
        k = k + 1;
        if rest == 0 || limit <= k {
            return k;
        }
        r = rest;
    }
}

/// Render `raw / 2^frac_bits` as `[-]D+.D{1,P}`, where `P` is `precision`
/// (`DEFAULT_PRECISION` when `None`), at least one and at most
/// `MAX_FRACTION_DIGITS`. Never allocates.
pub fn format_fixed_point(raw: i16, frac_bits: u8, precision: Option<usize>) -> (text: FixedText)
    requires
        frac_bits <= 15,
    ensures
        text@ == fixed_text(raw, frac_bits as nat, precision),
{
    let mut int_buf: [u8; 6] = [0u8; 6];
    let mut frac_buf: [u8; 6] = [0u8; 6];
    let neg: bool = raw < 0;
    let (int_part, frac_part) = split_magnitude(raw, frac_bits);
    proof {
        lemma2_to64();
        vstd::arithmetic::power2::lemma_pow2_pos(frac_bits as nat);
        assert(magnitude(raw) <= 32768);
        assert(int_part <= 32768) by (nonlinear_arith)
            requires
                int_part as nat == magnitude(raw) / pow2(frac_bits as nat),
                magnitude(raw) <= 32768,
                pow2(frac_bits as nat) >= 1,
        ;
    }
    let requested: usize = match precision {
        Some(p) => p,
        None => DEFAULT_PRECISION,
    };
    let limit: usize = if requested == 0 {
        1
    } else if requested > MAX_FRACTION_DIGITS {
        MAX_FRACTION_DIGITS
    } else {
        requested
    };
    let mut int_start: usize = render_integer(int_part, &mut int_buf);
    let frac_end: usize = render_fraction(frac_part, frac_bits, limit, &mut frac_buf);
    if neg {
        int_start = int_start - 1;
        int_buf[int_start] = 45;
    }
    let ghost head = int_buf@.subrange(int_start as int, 6);
    assert(head == sign_text(neg) + decimal_digits(int_part as nat));
    let ghost tail = frac_buf@.subrange(0, frac_end as int);

    let mut bytes: [u8; 13] = [0u8; 13];
    let mut len: usize = 0;
    let mut i: usize = int_start;
    while i < 6
        invariant
            int_start <= i <= 6,
            len == i - int_start,
            head == int_buf@.subrange(int_start as int, 6),
            bytes@.subrange(0, len as int) == head.subrange(0, len as int),
        decreases 6 - i,
    {
        bytes[len] = int_buf[i];
        len = len + 1;
        i = i + 1;
        assert(bytes@.subrange(0, len as int) == head.subrange(0, len as int));
    }
    assert(head.subrange(0, len as int) == head);
    bytes[len] = 46;
    len = len + 1;
    let ghost lead = head + seq![46u8];
    assert(bytes@.subrange(0, len as int) == lead);
    let mut j: usize = 0;
    while j < frac_end
        invariant
            j <= frac_end <= 6,
            len == lead.len() + j,
            lead.len() <= 7,
            tail == frac_buf@.subrange(0, frac_end as int),
            bytes@.subrange(0, len as int) == lead + tail.subrange(0, j as int),
        decreases frac_end - j,
    {
        let ghost before = bytes@;
        bytes[len] = frac_buf[j];
        len = len + 1;
        j = j + 1;
        assert(bytes@.subrange(0, len as int) == before.subrange(0, len - 1).push(tail[j - 1]));
        assert(tail.subrange(0, j as int) == tail.subrange(0, j - 1).push(tail[j - 1]));
        assert(bytes@.subrange(0, len as int) == lead + tail.subrange(0, j as int));
    }
    assert(tail.subrange(0, j as int) == tail);
    FixedText { bytes, len }
}

/// The fraction `r / 2^f` after `k` decimal digits are taken off.
pub open spec fn rest_after(r: nat, f: nat, k: nat) -> nat
    decreases k,
{
    if k == 0 {
        r
    } else {
        rest_after(fraction_rest(r, f), f, (k - 1) as nat)
    }
}

/// The most negative raw value keeps its sign and has no overflow: its text
/// is a minus sign, the digits of `2^(15 - f)`, and `.0`.
pub proof fn lemma_most_negative(f: nat, precision: Option<usize>)
    requires
        f <= 15,
    ensures
        fixed_text(i16::MIN, f, precision) == seq![45u8] + decimal_digits(pow2((15 - f) as nat)) + seq![46u8, 48u8],
{
    lemma2_to64();
    lemma_most_negative_split(f);
    vstd::arithmetic::power2::lemma_pow2_pos(f);
    vstd::arithmetic::power2::lemma_pow2_pos((f - 4) as nat);
    assert(magnitude(i16::MIN) == 32768);
    assert(fraction_part(i16::MIN, f) == 0);
    assert(fraction_rest(0, f) == 0) by {
        vstd::arithmetic::div_mod::lemma_small_mod(0, pow2(f));
    }
    assert(fraction_digit(0, f) == 0) by {
        vstd::arithmetic::div_mod::lemma_basic_div(0, pow2(f) as int);
        if f >= 4 {
            vstd::arithmetic::div_mod::lemma_basic_div(0, pow2((f - 4) as nat) as int);
        }
    }
    let n = digit_limit(precision);
    assert(fraction_digits(0, f, n) == seq![48u8]);
    assert(fixed_text(i16::MIN, f, precision) == seq![45u8] + decimal_digits(pow2((15 - f) as nat)) + seq![46u8]
        + seq![48u8]);
    assert(seq![45u8] + decimal_digits(pow2((15 - f) as nat)) + seq![46u8] + seq![48u8]
        == seq![45u8] + decimal_digits(pow2((15 - f) as nat)) + seq![46u8, 48u8]);
}

/// At most `n` fractional digits are emitted, at least one, and they stop at
/// the first digit that leaves a zero remainder: the last one either is the
/// `n`-th or leaves zero, and none before it does.
pub proof fn lemma_fraction_digits_trimmed(r: nat, f: nat, n: nat)
    requires
        n >= 1,
    ensures
        1 <= fraction_digits(r, f, n).len() <= n,
        fraction_digits(r, f, n).len() == n || rest_after(r, f, fraction_digits(r, f, n).len()) == 0,
        forall|k: nat| 1 <= k < fraction_digits(r, f, n).len() ==> rest_after(r, f, k) != 0,
    decreases n,
{
    reveal_with_fuel(rest_after, 2);
    if fraction_rest(r, f) == 0 || n == 1 {
        assert(rest_after(r, f, 1) == rest_after(fraction_rest(r, f), f, 0));
    } else {
        let next = fraction_rest(r, f);
        lemma_fraction_digits_trimmed(next, f, (n - 1) as nat);
        let len = fraction_digits(r, f, n).len();
        assert(len == 1 + fraction_digits(next, f, (n - 1) as nat).len());
        assert(rest_after(r, f, len) == rest_after(next, f, (len - 1) as nat));
        assert forall|k: nat| 1 <= k < len implies rest_after(r, f, k) != 0 by {
            assert(rest_after(r, f, k) == rest_after(next, f, (k - 1) as nat));
            if k == 1 {
                assert(rest_after(next, f, 0) == next);
            }
        }
    }
}

/// A requested precision of at least one digit bounds the fractional digits.
pub proof fn lemma_precision_bound(raw: i16, f: nat, precision: usize)
    requires
        precision >= 1,
    ensures
        fraction_digits(fraction_part(raw, f), f, digit_limit(Some(precision))).len() <= precision,
        fraction_digits(fraction_part(raw, f), f, digit_limit(Some(precision))).len() <= MAX_FRACTION_DIGITS,
        fixed_text(raw, f, Some(precision)) == sign_text(raw < 0) + decimal_digits(integer_part(raw, f))
            + seq![46u8] + fraction_digits(fraction_part(raw, f), f, digit_limit(Some(precision))),
{
    lemma_fraction_digits_trimmed(fraction_part(raw, f), f, digit_limit(Some(precision)));
}

pub open spec fn pow10(n: nat) -> nat
    decreases n,
{
    if n == 0 {
        1
    } else {
        10 * pow10((n - 1) as nat)
    }
}

/// The number a string of ASCII digits spells.
pub open spec fn digits_value(s: Seq<u8>) -> nat
    decreases s.len(),
{
    if s.len() == 0 {
        0
    } else {
        digits_value(s.drop_last()) * 10 + (s.last() - 48) as nat
    }
}

pub open spec fn all_digits(s: Seq<u8>) -> bool {
    forall|i: int| 0 <= i < s.len() ==> is_ascii_digit(#[trigger] s[i])
}

/// The decimal `int_value.frac_value` (with `k` fractional digits) is below
/// `m / 2^f` by less than `10^-limit`.
pub open spec fn within_tolerance(m: nat, f: nat, int_value: nat, frac_value: nat, k: nat, limit: nat) -> bool {
    let shown = (int_value * pow10(k) + frac_value) * pow2(f);
    let exact = m * pow10(k);
    shown <= exact && (exact - shown) * pow10(limit) < pow2(f) * pow10(k)
}

proof fn lemma_single_digit_value(b: u8)
    ensures
        digits_value(seq![b]) == (b - 48) as nat,
{
    reveal_with_fuel(digits_value, 2);
    assert(seq![b].drop_last() == Seq::<u8>::empty());
}

proof fn lemma_decimal_digits_value(n: nat)
    ensures
        digits_value(decimal_digits(n)) == n,
        all_digits(decimal_digits(n)),
    decreases n,
{
    let s = decimal_digits(n);
    if n >= 10 {
        lemma_decimal_digits_value(n / 10);
        let t = decimal_digits(n / 10);
        assert(s == t.push(ascii_digit(n % 10)));
        assert(s.drop_last() == t);
        assert(s.last() == ascii_digit(n % 10));
        assert(digits_value(s) == digits_value(t) * 10 + (s.last() - 48) as nat);
        assert forall|i: int| 0 <= i < s.len() implies is_ascii_digit(#[trigger] s[i]) by {
            if i < t.len() {
                assert(s[i] == t[i]);
            }
        }
    } else {
        lemma_single_digit_value(ascii_digit(n));
    }
}

proof fn lemma_digits_value_prepend(b: u8, s: Seq<u8>)
    requires
        is_ascii_digit(b),
    ensures
        digits_value(seq![b] + s) == (b - 48) as nat * pow10(s.len()) + digits_value(s),
    decreases s.len(),
{
    let bs = seq![b] + s;
    if s.len() == 0 {
        assert(bs == seq![b]);
        lemma_single_digit_value(b);
        assert(digits_value(s) == 0);
        assert(pow10(0) == 1);
    } else {
        let t = s.drop_last();
        lemma_digits_value_prepend(b, t);
        assert(bs.drop_last() == seq![b] + t);
        assert(bs.last() == s.last());
        assert(digits_value(bs) == digits_value(seq![b] + t) * 10 + (s.last() - 48) as nat);
        assert(digits_value(s) == digits_value(t) * 10 + (s.last() - 48) as nat);
        assert(pow10(s.len()) == 10 * pow10(t.len()));
        let d = (b - 48) as nat;
        assert((d * pow10(t.len()) + digits_value(t)) * 10 + (s.last() - 48) as nat
            == d * pow10(s.len()) + digits_value(s)) by (nonlinear_arith)
            requires
                pow10(s.len()) == 10 * pow10(t.len()),
                digits_value(s) == digits_value(t) * 10 + (s.last() - 48) as nat,
        ;
    }
}

/// With at most eleven fractional bits each digit is exact: the digits read
/// as a number, scaled by `2^f`, plus what remains, is `r * 10^k`.
proof fn lemma_fraction_digits_value(r: nat, f: nat, n: nat)
    requires
        f <= 11,
        r < pow2(f),
        n >= 1,
    ensures
        all_digits(fraction_digits(r, f, n)),
        digits_value(fraction_digits(r, f, n)) * pow2(f) + rest_after(r, f, fraction_digits(r, f, n).len())
            == r * pow10(fraction_digits(r, f, n).len()),
        rest_after(r, f, fraction_digits(r, f, n).len()) < pow2(f),
    decreases n,
{
    vstd::arithmetic::power2::lemma_pow2_pos(f);
    let p = pow2(f) as int;
    let d = fraction_digit(r, f);
    let next = fraction_rest(r, f);
    vstd::arithmetic::div_mod::lemma_fundamental_div_mod(10 * r as int, p);
    assert(d < 10) by (nonlinear_arith)
        requires
            d as int == (10 * r as int) / p,
            r < p,
            p > 0,
    ;
    assert(next < p) by {
        vstd::arithmetic::div_mod::lemma_mod_bound(10 * r as int, p);
    }
    reveal_with_fuel(rest_after, 2);
    reveal_with_fuel(pow10, 2);
    assert(rest_after(r, f, 1) == next) by {
        assert(rest_after(next, f, 0) == next);
    }
    if next == 0 || n == 1 {
        let s = fraction_digits(r, f, n);
        assert(s == seq![ascii_digit(d)]);
        lemma_single_digit_value(ascii_digit(d));
        assert(digits_value(s) == d);
        assert(pow10(1) == 10);
        assert(s.len() == 1);
        assert(10 * r == d * p + next);
        assert(digits_value(s) * p + next == r * pow10(1)) by (nonlinear_arith)
            requires
                digits_value(s) == d,
                10 * r == d * p + next,
                pow10(1) == 10,
        ;
    } else {
        let t = fraction_digits(next, f, (n - 1) as nat);
        lemma_fraction_digits_value(next, f, (n - 1) as nat);
        let s = fraction_digits(r, f, n);
        assert(s == seq![ascii_digit(d)] + t);
        lemma_digits_value_prepend(ascii_digit(d), t);
        assert(rest_after(r, f, s.len()) == rest_after(next, f, t.len()));
        assert(pow10(s.len()) == 10 * pow10(t.len()));
        let rest = rest_after(next, f, t.len());
        assert((d * pow10(t.len()) + digits_value(t)) * p + rest == r * pow10(s.len())) by (nonlinear_arith)
            requires
                digits_value(t) * p + rest == next * pow10(t.len()),
                10 * r == d * p + next,
                pow10(s.len()) == 10 * pow10(t.len()),
        ;
        assert forall|i: int| 0 <= i < s.len() implies is_ascii_digit(#[trigger] s[i]) by {
            if i > 0 {
                assert(s[i] == t[i - 1]);
            }
        }
    }
}

/// The text reads back as the value it renders: a sign exactly when `raw` is
/// negative, then integer and fractional digits around a point, whose value
/// is below `raw / 2^f` in magnitude by less than `10^-P`, where `P` is the
/// digit limit (the requested precision when it is between one and six).
/// This needs at most eleven fractional bits, where every digit is exact,
/// and a precision the six-digit buffer can honour.
pub proof fn lemma_text_parses_back(raw: i16, f: nat, precision: Option<usize>)
    requires
        f <= 11,
        precision is Some ==> precision->Some_0 <= MAX_FRACTION_DIGITS,
    ensures
        exists|int_digits: Seq<u8>, frac_digits: Seq<u8>|
            #![trigger digits_value(int_digits), digits_value(frac_digits)]
            fixed_text(raw, f, precision) == sign_text(raw < 0) + int_digits + seq![46u8] + frac_digits
                && all_digits(int_digits) && int_digits.len() >= 1
                && all_digits(frac_digits) && 1 <= frac_digits.len() <= digit_limit(precision)
                && within_tolerance(
                    magnitude(raw),
                    f,
                    digits_value(int_digits),
                    digits_value(frac_digits),
                    frac_digits.len(),
                    digit_limit(precision),
                ),
{
    let m = magnitude(raw);
    let i = integer_part(raw, f);
    let r = fraction_part(raw, f);
    let limit = digit_limit(precision);
    let ip = decimal_digits(i);
    let fp = fraction_digits(r, f, limit);
    let k = fp.len();
    vstd::arithmetic::power2::lemma_pow2_pos(f);
    let p = pow2(f) as int;
    vstd::arithmetic::div_mod::lemma_fundamental_div_mod(m as int, p);
    vstd::arithmetic::div_mod::lemma_mod_bound(m as int, p);
    lemma_decimal_digits_value(i);
    reveal_with_fuel(decimal_digits, 2);
    lemma_fraction_digits_value(r, f, limit);
    lemma_fraction_digits_trimmed(r, f, limit);
    let rest = rest_after(r, f, k);
    assert(k == limit || rest == 0);
    assert(pow10(k) >= 1 && pow10(limit) >= 1) by {
        lemma_pow10_pos(k);
        lemma_pow10_pos(limit);
    }
    let shown = (i * pow10(k) + digits_value(fp)) * pow2(f);
    let exact = m * pow10(k);
    assert(exact == shown + rest) by (nonlinear_arith)
        requires
            m == i * p + r,
            digits_value(fp) * p + rest == r * pow10(k),
            shown == (i * pow10(k) + digits_value(fp)) * p,
            exact == m * pow10(k),
    ;
    if rest != 0 {
        assert(rest * pow10(limit) < pow2(f) * pow10(k)) by (nonlinear_arith)
            requires
                rest < p,
                k == limit,
                pow10(k) >= 1,
                p == pow2(f),
        ;
    }
    assert(digits_value(ip) == i);
    assert(exact - shown == rest);
    assert(rest * pow10(limit) < pow2(f) * pow10(k)) by {
        if rest == 0 {
            assert(pow2(f) * pow10(k) > 0) by (nonlinear_arith)
                requires
                    pow2(f) > 0,
                    pow10(k) >= 1,
            ;
        }
    }
    assert(within_tolerance(m, f, digits_value(ip), digits_value(fp), k, limit));
}

proof fn lemma_pow10_pos(n: nat)
    ensures
        pow10(n) >= 1,
    decreases n,
{
    if n > 0 {
        lemma_pow10_pos((n - 1) as nat);
    }
}

} // verus!
