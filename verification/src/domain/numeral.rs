//! Numerals: the integers and decimal numerals that a string can write, and
//! how an integer is written.

use crate::domain::digits::{
    all_digits, digit, digits_value, is_digit, lemma_nat_digits, lemma_pow10_monotonic,
    lemma_pow10_positive, lemma_value_bound, lemma_value_push, lemma_value_take, nat_digits,
    pow10, push_nat,
};
use vstd::prelude::*;

verus! {

/// How many characters of `s` its sign takes: one for a leading `+` or `-`.
pub open spec fn sign_len(s: Seq<char>) -> int {
    if s.len() > 0 && (s[0] == '+' || s[0] == '-') {
        1
    } else {
        0
    }
}

/// Whether `s` starts with a minus sign.
pub open spec fn is_negative(s: Seq<char>) -> bool {
    s.len() > 0 && s[0] == '-'
}

/// `s` without its sign.
pub open spec fn unsigned_part(s: Seq<char>) -> Seq<char> {
    s.skip(sign_len(s))
}

/// `m` with the sign that `s` starts with.
pub open spec fn with_sign(s: Seq<char>, m: nat) -> int {
    if is_negative(s) {
        -(m as int)
    } else {
        m as int
    }
}

/// Whether `s` is an optional sign followed by one digit or more, and nothing
/// else.
pub open spec fn is_integer(s: Seq<char>) -> bool {
    unsigned_part(s).len() > 0 && all_digits(unsigned_part(s))
}

/// The number that the integer `s` writes, of whatever size.
pub open spec fn integer_of(s: Seq<char>) -> int {
    with_sign(s, digits_value(unsigned_part(s)))
}

/// The integer that `s` writes, if `s` is an integer that an `i64` holds;
/// `None` for any other string.
pub open spec fn integer_value(s: Seq<char>) -> Option<int> {
    if is_integer(s) && i64::MIN <= integer_of(s) <= i64::MAX {
        Some(integer_of(s))
    } else {
        None
    }
}

/// Where the first `a` or `b` of `s` stands, or the length of `s` if it holds
/// neither.
pub open spec fn first_of(s: Seq<char>, a: char, b: char) -> int
    decreases s.len(),
{
    if s.len() == 0 || s[0] == a || s[0] == b {
        0
    } else {
        1 + first_of(s.drop_first(), a, b)
    }
}

/// What stands before the first `e` or `E` of `body`.
pub open spec fn mantissa(body: Seq<char>) -> Seq<char> {
    body.take(first_of(body, 'e', 'E'))
}

/// What stands after the first `e` or `E` of `body`, if it has one.
pub open spec fn exponent_part(body: Seq<char>) -> Option<Seq<char>> {
    if first_of(body, 'e', 'E') < body.len() {
        Some(body.skip(first_of(body, 'e', 'E') + 1))
    } else {
        None
    }
}

/// What stands before the first decimal point of `m`.
pub open spec fn whole_part(m: Seq<char>) -> Seq<char> {
    m.take(first_of(m, '.', '.'))
}

/// What stands after the first decimal point of `m`; nothing if it has no
/// point.
pub open spec fn fraction_part(m: Seq<char>) -> Seq<char> {
    if first_of(m, '.', '.') < m.len() {
        m.skip(first_of(m, '.', '.') + 1)
    } else {
        Seq::empty()
    }
}

/// Whether `s` is a decimal numeral: an optional sign; digits, optionally
/// with a point among them, before them or after them; and optionally an `e`
/// or `E` followed by an integer.
pub open spec fn is_numeral(s: Seq<char>) -> bool {
    let body = unsigned_part(s);
    let m = mantissa(body);
    &&& all_digits(whole_part(m))
    &&& all_digits(fraction_part(m))
    &&& whole_part(m).len() + fraction_part(m).len() > 0
    &&& exponent_part(body) matches Some(t) ==> is_integer(t)
}

/// The digits of the numeral `s`, point left out.
pub open spec fn numeral_digits(s: Seq<char>) -> Seq<char> {
    let m = mantissa(unsigned_part(s));
    whole_part(m) + fraction_part(m)
}

/// The power of ten by which the digits of the numeral `s`, read as a whole
/// number, are to be multiplied: its exponent, less one for each digit after
/// the point.
pub open spec fn numeral_exponent(s: Seq<char>) -> int {
    let body = unsigned_part(s);
    let written = match exponent_part(body) {
        Some(t) => integer_of(t),
        None => 0,
    };
    written - fraction_part(mantissa(body)).len()
}

/// `d` times ten to the power `e`, cut down to a whole number.
pub open spec fn scaled(d: nat, e: int) -> nat {
    if e >= 0 {
        d * pow10(e as nat)
    } else {
        d / pow10((-e) as nat)
    }
}

/// The numeral `s` without its sign, multiplied by ten to the power `shift`
/// and cut down to a whole number.
pub open spec fn scaled_magnitude(s: Seq<char>, shift: nat) -> nat {
    scaled(digits_value(numeral_digits(s)), shift + numeral_exponent(s))
}

/// The largest magnitude that `parse_magnitude` hands out: that of `i64::MIN`.
pub const MAGNITUDE_LIMIT: u64 = 0x8000_0000_0000_0000;

/// Above this an exponent is not read further: no string is long enough for
/// it to matter by how much.
pub const EXPONENT_LIMIT: u128 = 0x1_0000_0000_0000_0000_0000_0000;

/// What `parse_magnitude` found.
#[derive(Debug, PartialEq, Eq)]
pub enum Magnitude {
    /// The string is no decimal numeral.
    Malformed,
    /// The scaled magnitude, at most `MAGNITUDE_LIMIT`.
    Fits(u64),
    /// The scaled magnitude is above `MAGNITUDE_LIMIT`.
    Exceeds,
}

/// The first of two characters stands within the string or at its end.
pub proof fn lemma_first_of_bounds(s: Seq<char>, a: char, b: char)
    ensures
        0 <= first_of(s, a, b) <= s.len(),
    decreases s.len(),
{
    if s.len() > 0 && s[0] != a && s[0] != b {
        lemma_first_of_bounds(s.drop_first(), a, b);
    }
}

/// Neither character stands before the first of them.
pub proof fn lemma_first_of_least(s: Seq<char>, a: char, b: char, k: int)
    requires
        0 <= k <= s.len(),
        forall|i: int| 0 <= i < k ==> #[trigger] s[i] != a && s[i] != b,
    ensures
        first_of(s, a, b) >= k,
        (k == s.len() || s[k] == a || s[k] == b) ==> first_of(s, a, b) == k,
    decreases k,
{
    lemma_first_of_bounds(s, a, b);
    if k > 0 {
        let rest = s.drop_first();
        assert(s[0] != a && s[0] != b);
        assert forall|i: int| 0 <= i < k - 1 implies #[trigger] rest[i] != a && rest[i] != b by {
            assert(rest[i] == s[i + 1]);
        }
        lemma_first_of_least(rest, a, b, k - 1);
        if k < s.len() {
            assert(rest[k - 1] == s[k]);
        }
    }
}

/// Ten to the power nineteen is above `MAGNITUDE_LIMIT`.
pub proof fn lemma_pow10_exceeds(e: nat)
    requires
        e >= 19,
    ensures
        pow10(e) > MAGNITUDE_LIMIT,
{
    assert(pow10(19) == 10000000000000000000) by {
        reveal_with_fuel(pow10, 20);
    }
    lemma_pow10_monotonic(19, e);
}

/// `acc` with the digit `d` written after it, unless that is above `limit`.
fn shift_in(acc: u128, d: u64, limit: u128) -> (r: Option<u128>)
    requires
        d < 10,
        10 <= limit,
    ensures
        match r {
            Some(v) => v == acc * 10 + d && v <= limit,
            None => acc * 10 + d > limit,
        },
{
    if acc > (limit - d as u128) / 10 {
        None
    } else {
        Some(acc * 10 + d as u128)
    }
}

/// How many characters the sign of `s` takes.
fn sign_width(s: &Vec<char>) -> (n: usize)
    ensures
        n == sign_len(s@),
        n <= s.len(),
{
    if s.len() > 0 && (s[0] == '+' || s[0] == '-') {
        1
    } else {
        0
    }
}

/// Whether the characters of `s` from `from` up to `to` are all digits.
fn digits_only(s: &Vec<char>, from: usize, to: usize) -> (b: bool)
    requires
        from <= to <= s.len(),
    ensures
        b == all_digits(s@.subrange(from as int, to as int)),
{
    let ghost part = s@.subrange(from as int, to as int);
    let mut i: usize = from;
    while i < to
        invariant
            from <= i <= to <= s.len(),
            part == s@.subrange(from as int, to as int),
            forall|j: int| 0 <= j < i - from ==> is_digit(#[trigger] part[j]),
        decreases to - i,
    {
        assert(part[i - from] == s@[i as int]);
        if digit(s[i]).is_none() {
            return false;
        }
        i += 1;
    }
    true
}

/// The number that `digits` write, unless it is above `limit`.
fn magnitude_of(digits: &Vec<char>, limit: u128) -> (r: Option<u128>)
    requires
        all_digits(digits@),
        10 <= limit,
    ensures
        match r {
            Some(v) => v == digits_value(digits@) && v <= limit,
            None => digits_value(digits@) > limit,
        },
{
    let mut acc: u128 = 0;
    let mut i: usize = 0;
    while i < digits.len()
        invariant
            i <= digits.len(),
            all_digits(digits@),
            10 <= limit,
            acc == digits_value(digits@.take(i as int)),
            acc <= limit,
        decreases digits.len() - i,
    {
        proof {
            assert(digits@.take(i + 1) =~= digits@.take(i as int).push(digits@[i as int]));
            lemma_value_push(digits@.take(i as int), digits@[i as int]);
        }
        let d = match digit(digits[i]) {
            Some(d) => d,
            None => 0,
        };
        match shift_in(acc, d, limit) {
            None => {
                proof {
                    lemma_value_take(digits@, i + 1);
                }
                return None;
            },
            Some(v) => {
                acc = v;
            },
        }
        i += 1;
    }
    proof {
        assert(digits@.take(digits.len() as int) =~= digits@);
    }
    Some(acc)
}

/// The characters of `s` from `from` up to `to`.
fn copy_range(s: &Vec<char>, from: usize, to: usize) -> (r: Vec<char>)
    requires
        from <= to <= s.len(),
    ensures
        r@ == s@.subrange(from as int, to as int),
{
    let mut r: Vec<char> = Vec::new();
    let mut i: usize = from;
    while i < to
        invariant
            from <= i <= to <= s.len(),
            r@ == s@.subrange(from as int, i as int),
        decreases to - i,
    {
        r.push(s[i]);
        assert(s@.subrange(from as int, i + 1) =~= s@.subrange(from as int, i as int).push(
            s@[i as int],
        ));
        i += 1;
    }
    r
}

/// The number that the integer `s` writes, unless its size is above `limit`;
/// `None` too where `s` is no integer.
fn read_integer(s: &Vec<char>, limit: u128) -> (r: Option<(bool, u128)>)
    requires
        10 <= limit,
    ensures
        match r {
            Some((negative, m)) => is_integer(s@) && negative == is_negative(s@) && m
                == digits_value(unsigned_part(s@)) && m <= limit,
            None => !is_integer(s@) || digits_value(unsigned_part(s@)) > limit,
        },
{
    let n = s.len();
    let start = sign_width(s);
    if start == n || !digits_only(s, start, n) {
        return None;
    }
    let body = copy_range(s, start, n);
    match magnitude_of(&body, limit) {
        None => None,
        Some(m) => Some((s[0] == '-', m)),
    }
}

/// Reads an integer as `integer_value` defines it.
pub fn parse_integer(s: &Vec<char>) -> (r: Option<i64>)
    ensures
        match r {
            Some(v) => integer_value(s@) == Some(v as int),
            None => integer_value(s@) is None,
        },
{
    match read_integer(s, MAGNITUDE_LIMIT as u128) {
        None => None,
        Some((negative, m)) => {
            if negative {
                if m == MAGNITUDE_LIMIT as u128 {
                    Some(i64::MIN)
                } else {
                    Some(-(m as i64))
                }
            } else if m < MAGNITUDE_LIMIT as u128 {
                Some(m as i64)
            } else {
                None
            }
        },
    }
}

/// Where the first `a` or `b` of `s` stands, or the length of `s` if it holds
/// neither.
fn find_first(s: &Vec<char>, a: char, b: char) -> (p: usize)
    ensures
        p <= s.len(),
        p == first_of(s@, a, b),
{
    let mut p: usize = 0;
    while p < s.len() && s[p] != a && s[p] != b
        invariant
            p <= s.len(),
            forall|i: int| 0 <= i < p ==> #[trigger] s@[i] != a && s@[i] != b,
        decreases s.len() - p,
    {
        p += 1;
    }
    proof {
        lemma_first_of_least(s@, a, b, p as int);
    }
    p
}

/// The number that `digits` write, times ten to the power `e` and cut down to
/// a whole number, unless that is above `MAGNITUDE_LIMIT`.
fn scale(digits: &Vec<char>, e: i128) -> (r: Option<u64>)
    requires
        all_digits(digits@),
    ensures
        match r {
            Some(v) => v == scaled(digits_value(digits@), e as int) && v <= MAGNITUDE_LIMIT,
            None => scaled(digits_value(digits@), e as int) > MAGNITUDE_LIMIT,
        },
{
    let ghost d = digits_value(digits@);
    if e >= 0 {
        proof {
            lemma_pow10_positive(e as nat);
            assert(d * pow10(e as nat) >= d) by (nonlinear_arith)
                requires
                    pow10(e as nat) >= 1,
            ;
        }
        match magnitude_of(digits, MAGNITUDE_LIMIT as u128) {
            None => None,
            Some(v) => {
                if v == 0 {
                    assert(0 * pow10(e as nat) == 0) by (nonlinear_arith);
                    return Some(0);
                }
                if e >= 19 {
                    proof {
                        lemma_pow10_exceeds(e as nat);
                        assert(d * pow10(e as nat) >= pow10(e as nat)) by (nonlinear_arith)
                            requires
                                d >= 1,
                        ;
                    }
                    return None;
                }
                let mut acc: u128 = v;
                let mut k: i128 = 0;
                assert(d * pow10(0) == d) by (nonlinear_arith)
                    requires
                        pow10(0) == 1,
                ;
                while k < e
                    invariant
                        0 <= k <= e < 19,
                        d == digits_value(digits@),
                        acc == d * pow10(k as nat),
                        acc <= MAGNITUDE_LIMIT,
                    decreases e - k,
                {
                    proof {
                        assert(d * pow10((k + 1) as nat) == (d * pow10(k as nat)) * 10)
                            by (nonlinear_arith)
                            requires
                                pow10((k + 1) as nat) == 10 * pow10(k as nat),
                        ;
                    }
                    match shift_in(acc, 0, MAGNITUDE_LIMIT as u128) {
                        None => {
                            proof {
                                lemma_pow10_monotonic((k + 1) as nat, e as nat);
                                assert(d * pow10(e as nat) >= d * pow10((k + 1) as nat))
                                    by (nonlinear_arith)
                                    requires
                                        pow10(e as nat) >= pow10((k + 1) as nat),
                                ;
                            }
                            return None;
                        },
                        Some(next) => {
                            acc = next;
                        },
                    }
                    k += 1;
                }
                Some(acc as u64)
            },
        }
    } else {
        let n = digits.len();
        if e <= -(n as i128) {
            proof {
                lemma_value_bound(digits@);
                lemma_pow10_monotonic(n as nat, (-e) as nat);
                vstd::arithmetic::div_mod::lemma_basic_div(d as int, pow10((-e) as nat) as int);
            }
            return Some(0);
        }
        let keep: usize = (n as i128 + e) as usize;
        let cut = copy_range(digits, 0, keep);
        proof {
            assert(cut@ =~= digits@.take(keep as int));
            lemma_value_take(digits@, keep as int);
            assert forall|i: int| 0 <= i < cut@.len() implies is_digit(#[trigger] cut@[i]) by {
                assert(cut@[i] == digits@[i]);
            }
        }
        match magnitude_of(&cut, MAGNITUDE_LIMIT as u128) {
            None => None,
            Some(v) => Some(v as u64),
        }
    }
}

/// What `s` holds as its exponent.
enum Exponent {
    /// What stands after the `e` is no integer.
    Malformed,
    /// The exponent; zero where none is written.
    Within(i128),
    /// An exponent above `EXPONENT_LIMIT`.
    Huge,
    /// An exponent below `-EXPONENT_LIMIT`.
    Tiny,
}

/// Reads what stands in `body` after the place `at` of its first `e` or `E`.
fn read_exponent(body: &Vec<char>, at: usize) -> (r: Exponent)
    requires
        at == first_of(body@, 'e', 'E'),
        at <= body.len(),
    ensures
        match r {
            Exponent::Malformed => exponent_part(body@) matches Some(t) && !is_integer(t),
            Exponent::Within(e) => {
                &&& exponent_part(body@) matches Some(t) ==> is_integer(t) && e == integer_of(t)
                &&& exponent_part(body@) is None ==> e == 0
                &&& -EXPONENT_LIMIT <= e <= EXPONENT_LIMIT
            },
            Exponent::Huge => exponent_part(body@) matches Some(t) && is_integer(t) && integer_of(t)
                > EXPONENT_LIMIT,
            Exponent::Tiny => exponent_part(body@) matches Some(t) && is_integer(t) && integer_of(t)
                < -EXPONENT_LIMIT,
        },
{
    if at == body.len() {
        return Exponent::Within(0);
    }
    let text = copy_range(body, at + 1, body.len());
    assert(text@ =~= body@.skip(at + 1));
    let n = text.len();
    let start = sign_width(&text);
    if start == n || !digits_only(&text, start, n) {
        return Exponent::Malformed;
    }
    let negative = text[0] == '-';
    let figures = copy_range(&text, start, n);
    match magnitude_of(&figures, EXPONENT_LIMIT) {
        None => if negative {
            Exponent::Tiny
        } else {
            Exponent::Huge
        },
        Some(m) => if negative {
            Exponent::Within(-(m as i128))
        } else {
            Exponent::Within(m as i128)
        },
    }
}

/// Reads a decimal numeral and scales it: the numeral without its sign,
/// multiplied by ten to the power `shift` and cut down to a whole number.
pub fn parse_magnitude(s: &Vec<char>, shift: usize) -> (m: Magnitude)
    ensures
        match m {
            Magnitude::Malformed => !is_numeral(s@),
            Magnitude::Fits(v) => is_numeral(s@) && v == scaled_magnitude(s@, shift as nat) && v
                <= MAGNITUDE_LIMIT,
            Magnitude::Exceeds => is_numeral(s@) && scaled_magnitude(s@, shift as nat)
                > MAGNITUDE_LIMIT,
        },
{
    let start = sign_width(s);
    let body = copy_range(s, start, s.len());
    assert(body@ =~= unsigned_part(s@));
    let at = find_first(&body, 'e', 'E');
    let m = copy_range(&body, 0, at);
    assert(m@ =~= mantissa(body@));
    let p = find_first(&m, '.', '.');
    let from: usize = if p < m.len() {
        p + 1
    } else {
        p
    };
    proof {
        assert(whole_part(m@) =~= m@.subrange(0, p as int));
        assert(fraction_part(m@) =~= m@.subrange(from as int, m.len() as int));
    }
    if !digits_only(&m, 0, p) || !digits_only(&m, from, m.len()) || (p == 0 && from == m.len()) {
        return Magnitude::Malformed;
    }
    let mut digits = copy_range(&m, 0, p);
    let mut fraction = copy_range(&m, from, m.len());
    let f = fraction.len();
    digits.append(&mut fraction);
    proof {
        assert(digits@ =~= numeral_digits(s@));
        assert forall|i: int| 0 <= i < digits@.len() implies is_digit(#[trigger] digits@[i]) by {
            if i < p {
                assert(digits@[i] == whole_part(m@)[i]);
            } else {
                assert(digits@[i] == fraction_part(m@)[i - p]);
            }
        }
    }
    match read_exponent(&body, at) {
        Exponent::Malformed => Magnitude::Malformed,
        Exponent::Within(written) => {
            let e: i128 = shift as i128 + written - f as i128;
            match scale(&digits, e) {
                Some(v) => Magnitude::Fits(v),
                None => Magnitude::Exceeds,
            }
        },
        Exponent::Huge => {
            let ghost e = shift + numeral_exponent(s@);
            let ghost d = digits_value(digits@);
            match magnitude_of(&digits, MAGNITUDE_LIMIT as u128) {
                Some(v) if v == 0 => {
                    assert(0 * pow10(e as nat) == 0) by (nonlinear_arith);
                    Magnitude::Fits(0)
                },
                _ => {
                    proof {
                        lemma_pow10_exceeds(e as nat);
                        assert(d * pow10(e as nat) >= pow10(e as nat)) by (nonlinear_arith)
                            requires
                                d >= 1,
                        ;
                    }
                    Magnitude::Exceeds
                },
            }
        },
        Exponent::Tiny => {
            proof {
                let e = shift + numeral_exponent(s@);
                let d = digits_value(digits@);
                lemma_value_bound(digits@);
                lemma_pow10_monotonic(digits@.len(), (-e) as nat);
                vstd::arithmetic::div_mod::lemma_basic_div(d as int, pow10((-e) as nat) as int);
            }
            Magnitude::Fits(0)
        },
    }
}

/// How the integer `v` is written: a minus sign if it is negative, then its
/// digits.
pub open spec fn integer_text(v: int) -> Seq<char> {
    if v < 0 {
        seq!['-'] + nat_digits((-v) as nat)
    } else {
        nat_digits(v as nat)
    }
}

/// Written out and read again, an integer that an `i64` holds is itself.
pub proof fn lemma_integer_round_trip(v: int)
    requires
        i64::MIN <= v <= i64::MAX,
    ensures
        integer_value(integer_text(v)) == Some(v),
        integer_text(v).len() > 0,
        is_digit(integer_text(v).last()),
        integer_text(v)[0] == '-' || is_digit(integer_text(v)[0]),
{
    let s = integer_text(v);
    if v < 0 {
        let d = nat_digits((-v) as nat);
        lemma_nat_digits((-v) as nat);
        assert(s[0] == '-');
        assert(unsigned_part(s) =~= d);
        assert(s.last() == d.last());
    } else {
        let d = nat_digits(v as nat);
        lemma_nat_digits(v as nat);
        assert(is_digit(d[0]));
        assert(unsigned_part(s) =~= d);
    }
}

/// The size of `v` without its sign.
pub fn magnitude(v: i64) -> (m: u64)
    ensures
        m == if v < 0 {
            -(v as int)
        } else {
            v as int
        },
{
    if v < 0 {
        (-(v + 1)) as u64 + 1
    } else {
        v as u64
    }
}

/// Writes an integer as `integer_text` defines it.
pub fn format_integer(v: i64) -> (r: Vec<char>)
    ensures
        r@ == integer_text(v as int),
{
    let mut r: Vec<char> = Vec::new();
    if v < 0 {
        r.push('-');
    }
    push_nat(magnitude(v), &mut r);
    proof {
        assert(r@ =~= integer_text(v as int));
    }
    r
}

} // verus!
