//! Measurements as exact decimals with six places.
//!
//! A measurement is held as a whole number of millionths, so that
//! comparisons and means are exact. A numeral with more than six places is
//! cut after the sixth.

use crate::domain::digits::{
    all_digits, digits_value, fixed_digits, is_digit, lemma_fixed_digits, lemma_nat_digits,
    lemma_pow10_add, lemma_pow10_small, lemma_value_concat, nat_digits, pow10, push_fixed,
    push_nat,
};
use crate::domain::numeral::{
    exponent_part, first_of, fraction_part, is_negative, is_numeral, lemma_first_of_least,
    magnitude, mantissa, numeral_digits, numeral_exponent, parse_magnitude, scaled_magnitude,
    sign_len, unsigned_part, whole_part, with_sign, Magnitude, MAGNITUDE_LIMIT,
};
use crate::domain::text::{chars_of, text_of};
use vstd::prelude::*;

verus! {

/// How many decimal places a `Decimal` keeps.
pub const PLACES: usize = 6;

/// How many millionths make one.
pub const UNIT: u64 = 1_000_000;

/// A number with six decimal places, held as a count of millionths.
#[derive(Clone, Copy, Debug, PartialEq, Eq, Structural)]
pub struct Decimal {
    pub micros: i64,
}

impl View for Decimal {
    type V = int;

    /// The count of millionths.
    open spec fn view(&self) -> int {
        self.micros as int
    }
}

impl DeepView for Decimal {
    type V = int;

    open spec fn deep_view(&self) -> int {
        self.micros as int
    }
}

/// The millionths that the numeral `s` is worth, cut toward zero, if `s` is a
/// decimal numeral and an `i64` holds them; `None` for any other string.
pub open spec fn decimal_value(s: Seq<char>) -> Option<int> {
    let v = with_sign(s, scaled_magnitude(s, PLACES as nat));
    if is_numeral(s) && i64::MIN <= v <= i64::MAX {
        Some(v)
    } else {
        None
    }
}

/// The whole number that the numeral `s` is worth, cut toward zero and held
/// to the range of an `i64`, if `s` is a decimal numeral; `None` for any
/// other string.
pub open spec fn truncated_value(s: Seq<char>) -> Option<int> {
    let v = with_sign(s, scaled_magnitude(s, 0));
    if !is_numeral(s) {
        None
    } else if v < i64::MIN {
        Some(i64::MIN as int)
    } else if v > i64::MAX {
        Some(i64::MAX as int)
    } else {
        Some(v)
    }
}

/// Whether `c` is the small letter `small` or its capital.
pub open spec fn is_letter(c: char, small: char) -> bool {
    c == small || c as u32 + 32 == small as u32
}

/// Whether `s` spells `word`, a word in small letters, in letters of either
/// case.
pub open spec fn spells(s: Seq<char>, word: Seq<char>) -> bool {
    &&& s.len() == word.len()
    &&& forall|i: int| 0 <= i < s.len() ==> is_letter(#[trigger] s[i], word[i])
}

/// The whole number that stands for a number written as a word: 0 for
/// `nan`, the largest `i64` for `inf` and `infinity`, the least after a
/// minus sign; the word in letters of either case, after an optional sign.
/// `None` for any other string.
pub open spec fn named_value(t: Seq<char>) -> Option<int> {
    let word = unsigned_part(t);
    if spells(word, seq!['n', 'a', 'n']) {
        Some(0)
    } else if spells(word, seq!['i', 'n', 'f']) || spells(
        word,
        seq!['i', 'n', 'f', 'i', 'n', 'i', 't', 'y'],
    ) {
        if is_negative(t) {
            Some(i64::MIN as int)
        } else {
            Some(i64::MAX as int)
        }
    } else {
        None
    }
}

/// `s` without the zeros at its end.
pub open spec fn strip_zeros(s: Seq<char>) -> Seq<char>
    decreases s.len(),
{
    if s.len() > 0 && s.last() == '0' {
        strip_zeros(s.drop_last())
    } else {
        s
    }
}

/// How a count of millionths is written: a minus sign if it is negative, the
/// digits of the whole part, and, unless the rest is zero, a point and the
/// places up to the last that is not zero.
pub open spec fn decimal_text(v: int) -> Seq<char> {
    let m = (if v < 0 {
        -v
    } else {
        v
    }) as nat;
    let sign = if v < 0 {
        seq!['-']
    } else {
        Seq::<char>::empty()
    };
    let whole = nat_digits(m / (UNIT as nat));
    let places = strip_zeros(fixed_digits(m % (UNIT as nat), PLACES as nat));
    if places.len() == 0 {
        sign + whole
    } else {
        sign + whole + seq!['.'] + places
    }
}

/// What `strip_zeros` leaves are the first digits, ending in no zero, and
/// worth the whole divided by a power of ten.
pub proof fn lemma_strip_zeros(s: Seq<char>)
    requires
        all_digits(s),
    ensures
        strip_zeros(s).len() <= s.len(),
        strip_zeros(s) == s.take(strip_zeros(s).len() as int),
        all_digits(strip_zeros(s)),
        strip_zeros(s).len() > 0 ==> strip_zeros(s).last() != '0',
        digits_value(strip_zeros(s)) * pow10((s.len() - strip_zeros(s).len()) as nat)
            == digits_value(s),
    decreases s.len(),
{
    if s.len() > 0 && s.last() == '0' {
        let t = s.drop_last();
        assert forall|i: int| 0 <= i < t.len() implies is_digit(#[trigger] t[i]) by {
            assert(t[i] == s[i]);
        }
        lemma_strip_zeros(t);
        let r = strip_zeros(t);
        assert(r =~= s.take(r.len() as int));
        let k = (t.len() - r.len()) as nat;
        assert(pow10(k + 1) == 10 * pow10(k));
        assert(digits_value(s) == digits_value(t) * 10 + 0);
        assert(digits_value(r) * (10 * pow10(k)) == (digits_value(r) * pow10(k)) * 10)
            by (nonlinear_arith);
    } else {
        assert(s.take(s.len() as int) =~= s);
        assert(pow10(0) == 1);
        assert(digits_value(s) * 1 == digits_value(s));
    }
}

/// Written out and read again, a count of millionths is itself.
pub proof fn lemma_decimal_round_trip(v: int)
    requires
        i64::MIN <= v <= i64::MAX,
    ensures
        decimal_value(decimal_text(v)) == Some(v),
        decimal_text(v).len() > 0,
        is_digit(decimal_text(v).last()),
        decimal_text(v)[0] == '-' || is_digit(decimal_text(v)[0]),
{
    let m = (if v < 0 {
        -v
    } else {
        v
    }) as nat;
    let sign = if v < 0 {
        seq!['-']
    } else {
        Seq::<char>::empty()
    };
    let unit = UNIT as nat;
    let whole = nat_digits(m / unit);
    let full = fixed_digits(m % unit, PLACES as nat);
    let places = strip_zeros(full);
    let s = decimal_text(v);
    lemma_nat_digits(m / unit);
    lemma_fixed_digits(m % unit, PLACES as nat);
    lemma_strip_zeros(full);
    lemma_pow10_small();
    let body = if places.len() == 0 {
        whole
    } else {
        whole + seq!['.'] + places
    };
    assert(s =~= sign + body);
    assert(is_digit(whole[0]));
    assert(body[0] == whole[0]);
    assert(sign_len(s) == sign.len());
    assert(is_negative(s) == (v < 0));
    assert(unsigned_part(s) =~= body);
    // No exponent is written.
    assert forall|i: int| 0 <= i < body.len() implies #[trigger] body[i] != 'e' && body[i]
        != 'E' by {
        if i < whole.len() {
            assert(body[i] == whole[i]);
            assert(is_digit(whole[i]));
        } else if i > whole.len() {
            assert(body[i] == places[i - whole.len() - 1]);
            assert(is_digit(places[i - whole.len() - 1]));
        }
    }
    lemma_first_of_least(body, 'e', 'E', body.len() as int);
    assert(mantissa(body) =~= body);
    assert(exponent_part(body) is None);
    // The point stands after the whole part.
    assert forall|i: int| 0 <= i < whole.len() implies #[trigger] body[i] != '.' by {
        assert(body[i] == whole[i]);
        assert(is_digit(whole[i]));
    }
    lemma_first_of_least(body, '.', '.', whole.len() as int);
    assert(first_of(body, '.', '.') == whole.len());
    assert(whole_part(body) =~= whole);
    assert(fraction_part(body) =~= places);
    assert(numeral_digits(s) =~= whole + places);
    assert(is_numeral(s));
    // The digits are worth the millionths.
    let f = places.len();
    lemma_value_concat(whole, places);
    lemma_pow10_add(f, (PLACES - f) as nat);
    let w = m / unit;
    let r = digits_value(places);
    let pf = pow10(f);
    let pr = pow10((PLACES - f) as nat);
    assert(m % unit % unit == m % unit) by {
        vstd::arithmetic::div_mod::lemma_mod_twice(m as int, unit as int);
    }
    assert(r * pr == m % unit);
    assert(pf * pr == unit);
    assert((w * pf + r) * pr == w * (pf * pr) + r * pr) by (nonlinear_arith);
    assert(w * unit + m % unit == m) by {
        vstd::arithmetic::div_mod::lemma_fundamental_div_mod(m as int, unit as int);
        assert(unit * w == w * unit) by (nonlinear_arith);
    }
    assert(numeral_exponent(s) == -f);
    assert(scaled_magnitude(s, PLACES as nat) == m);
    if places.len() == 0 {
        assert(s.last() == whole.last());
    } else {
        assert(s.last() == places.last());
    }
}

impl Decimal {
    /// Reads a measurement as `decimal_value` defines it.
    pub fn parse(text: &Vec<char>) -> (r: Option<Decimal>)
        ensures
            match r {
                Some(d) => decimal_value(text@) == Some(d@),
                None => decimal_value(text@) is None,
            },
    {
        let negative = text.len() > 0 && text[0] == '-';
        match parse_magnitude(text, PLACES) {
            Magnitude::Malformed => None,
            Magnitude::Exceeds => None,
            Magnitude::Fits(m) => {
                if negative {
                    if m == MAGNITUDE_LIMIT {
                        Some(Decimal { micros: i64::MIN })
                    } else {
                        Some(Decimal { micros: -(m as i64) })
                    }
                } else if m < MAGNITUDE_LIMIT {
                    Some(Decimal { micros: m as i64 })
                } else {
                    None
                }
            },
        }
    }

    /// Writes a measurement as `decimal_text` defines it.
    pub fn to_chars(&self) -> (r: Vec<char>)
        ensures
            r@ == decimal_text(self@),
    {
        let m = magnitude(self.micros);
        let mut r: Vec<char> = Vec::new();
        if self.micros < 0 {
            r.push('-');
        }
        push_nat(m / UNIT, &mut r);
        let mut places: Vec<char> = Vec::new();
        push_fixed(m % UNIT, PLACES, &mut places);
        let ghost full = places@;
        proof {
            assert(full =~= fixed_digits((m % UNIT) as nat, PLACES as nat));
        }
        while places.len() > 0 && places[places.len() - 1] == '0'
            invariant
                strip_zeros(places@) == strip_zeros(full),
            decreases places.len(),
        {
            places.pop();
        }
        if places.len() > 0 {
            r.push('.');
            r.append(&mut places);
        }
        proof {
            assert(r@ =~= decimal_text(self@));
        }
        r
    }

    /// The measurement as a string: see `decimal_text`.
    pub fn to_text(&self) -> (r: String)
        ensures
            r@ == decimal_text(self@),
    {
        text_of(&self.to_chars())
    }

    /// Reads a measurement from a string: see `decimal_value`.
    pub fn from_text(text: &str) -> (r: Option<Decimal>)
        ensures
            match r {
                Some(d) => decimal_value(text@) == Some(d@),
                None => decimal_value(text@) is None,
            },
    {
        Decimal::parse(&chars_of(text))
    }
}

/// Whether what stands in `text` from `from` on spells `word`.
fn spelled(text: &Vec<char>, from: usize, word: &Vec<char>) -> (b: bool)
    requires
        from <= text.len(),
    ensures
        b == spells(text@.skip(from as int), word@),
{
    let ghost rest = text@.skip(from as int);
    if text.len() - from != word.len() {
        return false;
    }
    let mut i: usize = 0;
    while i < word.len()
        invariant
            i <= word.len(),
            from + word.len() == text.len(),
            rest == text@.skip(from as int),
            forall|j: int| 0 <= j < i ==> is_letter(#[trigger] rest[j], word@[j]),
        decreases word.len() - i,
    {
        let c: char = text[from + i];
        let small: char = word[i];
        assert(rest[i as int] == c);
        if !(c == small || (c as u32) as u64 + 32 == (small as u32) as u64) {
            return false;
        }
        i += 1;
    }
    true
}

/// Reads a number written as a word as `named_value` defines it.
pub fn parse_named(text: &Vec<char>) -> (r: Option<i64>)
    ensures
        match r {
            Some(v) => named_value(text@) == Some(v as int),
            None => named_value(text@) is None,
        },
{
    let start: usize = if text.len() > 0 && (text[0] == '+' || text[0] == '-') {
        1
    } else {
        0
    };
    let negative = text.len() > 0 && text[0] == '-';
    let nan: Vec<char> = vec!['n', 'a', 'n'];
    let inf: Vec<char> = vec!['i', 'n', 'f'];
    let infinity: Vec<char> = vec!['i', 'n', 'f', 'i', 'n', 'i', 't', 'y'];
    proof {
        assert(nan@ =~= seq!['n', 'a', 'n']);
        assert(inf@ =~= seq!['i', 'n', 'f']);
        assert(infinity@ =~= seq!['i', 'n', 'f', 'i', 'n', 'i', 't', 'y']);
    }
    if spelled(text, start, &nan) {
        Some(0)
    } else if spelled(text, start, &inf) || spelled(text, start, &infinity) {
        if negative {
            Some(i64::MIN)
        } else {
            Some(i64::MAX)
        }
    } else {
        None
    }
}

/// Reads the whole part of a numeral as `truncated_value` defines it.
pub fn parse_truncated(text: &Vec<char>) -> (r: Option<i64>)
    ensures
        match r {
            Some(v) => truncated_value(text@) == Some(v as int),
            None => truncated_value(text@) is None,
        },
{
    let negative = text.len() > 0 && text[0] == '-';
    match parse_magnitude(text, 0) {
        Magnitude::Malformed => None,
        Magnitude::Exceeds => if negative {
            Some(i64::MIN)
        } else {
            Some(i64::MAX)
        },
        Magnitude::Fits(m) => {
            if negative {
                if m == MAGNITUDE_LIMIT {
                    Some(i64::MIN)
                } else {
                    Some(-(m as i64))
                }
            } else if m < MAGNITUDE_LIMIT {
                Some(m as i64)
            } else {
                Some(i64::MAX)
            }
        },
    }
}

} // verus!
