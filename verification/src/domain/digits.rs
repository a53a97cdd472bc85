//! Strings of decimal digits: what they are worth, and the digits that
//! write a number.

use vstd::prelude::*;

verus! {

/// Whether `c` is one of the ten decimal digits.
pub open spec fn is_digit(c: char) -> bool {
    48 <= c as u32 <= 57
}

/// The worth of the digit `c`.
pub open spec fn digit_of(c: char) -> nat {
    (c as u32 - 48) as nat
}

/// The digit that is worth `d`, for `d` below ten.
pub open spec fn digit_char(d: nat) -> char {
    ((d + 48) as u8) as char
}

/// Whether `s` holds digits only.
pub open spec fn all_digits(s: Seq<char>) -> bool {
    forall|i: int| 0 <= i < s.len() ==> is_digit(#[trigger] s[i])
}

/// Ten to the power `n`.
pub open spec fn pow10(n: nat) -> nat
    decreases n,
{
    if n == 0 {
        1
    } else {
        10 * pow10((n - 1) as nat)
    }
}

/// The number that the digits of `s` write in base ten; zero for no digits.
pub open spec fn digits_value(s: Seq<char>) -> nat
    decreases s.len(),
{
    if s.len() == 0 {
        0
    } else {
        digits_value(s.drop_last()) * 10 + digit_of(s.last())
    }
}

/// The digits that write `n` in base ten, without leading zeros; one zero
/// for zero.
pub open spec fn nat_digits(n: nat) -> Seq<char>
    decreases n,
{
    if n < 10 {
        seq![digit_char(n)]
    } else {
        nat_digits(n / 10).push(digit_char(n % 10))
    }
}

/// The last `width` digits of `n` in base ten, with leading zeros where `n`
/// has fewer.
pub open spec fn fixed_digits(n: nat, width: nat) -> Seq<char>
    decreases width,
{
    if width == 0 {
        Seq::empty()
    } else {
        fixed_digits(n / 10, (width - 1) as nat).push(digit_char(n % 10))
    }
}

/// A power of ten is above zero.
pub proof fn lemma_pow10_positive(n: nat)
    ensures
        pow10(n) > 0,
    decreases n,
{
    if n > 0 {
        lemma_pow10_positive((n - 1) as nat);
    }
}

/// Powers of ten multiply by adding their exponents.
pub proof fn lemma_pow10_add(a: nat, b: nat)
    ensures
        pow10(a + b) == pow10(a) * pow10(b),
    decreases a,
{
    if a == 0 {
        assert(pow10(0) == 1);
    } else {
        lemma_pow10_add((a - 1) as nat, b);
        assert(pow10(a + b) == 10 * pow10((a - 1 + b) as nat));
        assert(10 * (pow10((a - 1) as nat) * pow10(b)) == (10 * pow10((a - 1) as nat)) * pow10(b))
            by (nonlinear_arith);
    }
}

/// The first powers of ten.
pub proof fn lemma_pow10_small()
    ensures
        pow10(0) == 1,
        pow10(1) == 10,
        pow10(2) == 100,
        pow10(3) == 1000,
        pow10(4) == 10000,
        pow10(5) == 100000,
        pow10(6) == 1000000,
{
    reveal_with_fuel(pow10, 8);
}

/// One more digit at the end multiplies by ten and adds the digit.
pub proof fn lemma_value_push(s: Seq<char>, c: char)
    ensures
        digits_value(s.push(c)) == digits_value(s) * 10 + digit_of(c),
{
    assert(s.push(c).drop_last() =~= s);
}

/// The worth of two digit strings put together.
pub proof fn lemma_value_concat(a: Seq<char>, b: Seq<char>)
    ensures
        digits_value(a + b) == digits_value(a) * pow10(b.len()) + digits_value(b),
    decreases b.len(),
{
    if b.len() == 0 {
        assert(a + b =~= a);
        assert(pow10(0) == 1);
        assert(digits_value(a) * 1 == digits_value(a));
    } else {
        let b0 = b.drop_last();
        assert((a + b).drop_last() =~= a + b0);
        assert((a + b).last() == b.last());
        lemma_value_concat(a, b0);
        assert(digits_value(a + b) == digits_value(a + b0) * 10 + digit_of(b.last()));
        assert(digits_value(b) == digits_value(b0) * 10 + digit_of(b.last()));
        let va = digits_value(a);
        let p = pow10(b0.len());
        let vb0 = digits_value(b0);
        let d = digit_of(b.last());
        assert(pow10(b.len()) == 10 * p);
        assert((va * p + vb0) * 10 + d == va * (10 * p) + (vb0 * 10 + d)) by (nonlinear_arith);
    }
}

/// Digits write a number below the power of ten of their count.
pub proof fn lemma_value_bound(s: Seq<char>)
    requires
        all_digits(s),
    ensures
        digits_value(s) < pow10(s.len()),
    decreases s.len(),
{
    if s.len() > 0 {
        let s0 = s.drop_last();
        assert forall|i: int| 0 <= i < s0.len() implies is_digit(#[trigger] s0[i]) by {
            assert(s0[i] == s[i]);
        }
        lemma_value_bound(s0);
        assert(is_digit(s[s.len() - 1]));
    }
}

/// Division undoes a multiplication to which less than the divisor was added.
pub proof fn lemma_div_of_scaled(a: nat, p: nat, r: nat)
    requires
        p > 0,
        r < p,
    ensures
        (a * p + r) / p == a,
        (a * p + r) % p == r,
{
    vstd::arithmetic::div_mod::lemma_fundamental_div_mod_converse(
        (a * p + r) as int,
        p as int,
        a as int,
        r as int,
    );
}

/// The first `k` digits write the whole number divided by the power of ten of
/// the digits left out.
pub proof fn lemma_value_take(s: Seq<char>, k: int)
    requires
        all_digits(s),
        0 <= k <= s.len(),
    ensures
        digits_value(s.take(k)) == digits_value(s) / pow10((s.len() - k) as nat),
        digits_value(s.take(k)) <= digits_value(s),
{
    let a = s.take(k);
    let b = s.skip(k);
    assert(a + b =~= s);
    lemma_value_concat(a, b);
    assert forall|i: int| 0 <= i < b.len() implies is_digit(#[trigger] b[i]) by {
        assert(b[i] == s[i + k]);
    }
    lemma_value_bound(b);
    let p = pow10(b.len());
    lemma_pow10_positive(b.len());
    lemma_div_of_scaled(digits_value(a), p, digits_value(b));
    assert(digits_value(a) * p >= digits_value(a)) by (nonlinear_arith)
        requires
            p >= 1,
    ;
}

/// A larger exponent gives no smaller a power of ten.
pub proof fn lemma_pow10_monotonic(a: nat, b: nat)
    requires
        a <= b,
    ensures
        pow10(a) <= pow10(b),
    decreases b,
{
    if a < b {
        lemma_pow10_monotonic(a, (b - 1) as nat);
    }
}

/// The digit that is worth `d` is a digit, worth `d`, and no other sign of a
/// numeral.
pub proof fn lemma_digit_char(d: nat)
    requires
        d < 10,
    ensures
        is_digit(digit_char(d)),
        digit_of(digit_char(d)) == d,
        digit_char(d) != '.',
        digit_char(d) != '+',
        digit_char(d) != '-',
        digit_char(d) != 'e',
        digit_char(d) != 'E',
        d != 0 ==> digit_char(d) != '0',
        digit_char(0) == '0',
{
}

/// The digits of `n` are digits, at least one, and worth `n`.
pub proof fn lemma_nat_digits(n: nat)
    ensures
        nat_digits(n).len() >= 1,
        all_digits(nat_digits(n)),
        digits_value(nat_digits(n)) == n,
    decreases n,
{
    if n < 10 {
        lemma_digit_char(n);
        let s = seq![digit_char(n)];
        assert(s.drop_last() =~= Seq::<char>::empty());
        assert(digits_value(s.drop_last()) == 0);
    } else {
        lemma_nat_digits(n / 10);
        lemma_digit_char(n % 10);
        lemma_value_push(nat_digits(n / 10), digit_char(n % 10));
    }
}

/// The last `width` digits of `n` are `width` digits, worth what `n` leaves
/// when divided by ten to the power `width`.
pub proof fn lemma_fixed_digits(n: nat, width: nat)
    ensures
        fixed_digits(n, width).len() == width,
        all_digits(fixed_digits(n, width)),
        digits_value(fixed_digits(n, width)) == n % pow10(width),
    decreases width,
{
    if width > 0 {
        let w = (width - 1) as nat;
        lemma_fixed_digits(n / 10, w);
        lemma_digit_char(n % 10);
        lemma_value_push(fixed_digits(n / 10, w), digit_char(n % 10));
        lemma_pow10_positive(w);
        let p = pow10(w);
        // n % (10 * p) == (n / 10 % p) * 10 + n % 10
        vstd::arithmetic::div_mod::lemma_breakdown(n as int, 10, p as int);
        assert(10 * p == pow10(width));
        assert(10 * ((n / 10) % p) + n % 10 == ((n / 10) % p) * 10 + n % 10);
    }
}

/// The worth of `c` if it is a digit.
pub fn digit(c: char) -> (d: Option<u64>)
    ensures
        d is Some == is_digit(c),
        d matches Some(v) ==> v == digit_of(c) && v < 10,
{
    let n: u32 = c as u32;
    if 48 <= n && n <= 57 {
        Some((n - 48) as u64)
    } else {
        None
    }
}

/// The digit that is worth `d`.
pub fn digit_to_char(d: u64) -> (c: char)
    requires
        d < 10,
    ensures
        c == digit_char(d as nat),
{
    (48u8 + d as u8) as char
}

/// Writes the digits of `n` at the end of `out`.
pub fn push_nat(n: u64, out: &mut Vec<char>)
    ensures
        final(out)@ == old(out)@ + nat_digits(n as nat),
    decreases n,
{
    if n >= 10 {
        push_nat(n / 10, out);
    }
    out.push(digit_to_char(n % 10));
    proof {
        if n >= 10 {
            assert(final(out)@ =~= old(out)@ + nat_digits(n as nat));
        } else {
            assert(final(out)@ =~= old(out)@ + nat_digits(n as nat));
        }
    }
}

/// Writes the last `width` digits of `n` at the end of `out`.
pub fn push_fixed(n: u64, width: usize, out: &mut Vec<char>)
    ensures
        final(out)@ == old(out)@ + fixed_digits(n as nat, width as nat),
    decreases width,
{
    if width > 0 {
        push_fixed(n / 10, width - 1, out);
        out.push(digit_to_char(n % 10));
    }
    proof {
        assert(final(out)@ =~= old(out)@ + fixed_digits(n as nat, width as nat));
    }
}

} // verus!
