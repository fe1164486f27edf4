//! Decimal numbers as text: an optional sign, digits with at most one point
//! among them, and an optional exponent; or a word for a number that is not
//! finite.

use vstd::prelude::*;

use crate::text::{
    all_digits, ascii_lower_of, chars_of, digits_value, find_char, first_of, is_digit, lemma_first_of,
    lemma_first_of_is, parse_digits_capped, same_chars, skip_chars, split_once, split_once_of, take_chars,
    to_ascii_lower,
};

verus! {

/// What a number in decimal notation is.
pub enum Number {
    /// The digits, of which the first `point` stand before the point. They go on
    /// with zeros where there are fewer; zeros come first where it is negative.
    Finite { negative: bool, digits: Seq<char>, point: int },
    /// Infinite, or not a number.
    NotFinite,
}

/// The position of the exponent mark, or the length of the text if it has none.
pub open spec fn exponent_mark(s: Seq<char>) -> int {
    let lower = first_of(s, 'e');
    let upper = first_of(s, 'E');
    if lower < upper {
        lower
    } else {
        upper
    }
}

/// The largest exponent that is told apart from larger ones.
pub const MAX_EXPONENT: u64 = 1_000_000;

/// The value of an exponent: an optional sign and at least one digit.
pub open spec fn exponent_of(s: Seq<char>) -> Option<int> {
    let signed = s.len() > 0 && (s[0] == '+' || s[0] == '-');
    let digits = if signed { s.drop_first() } else { s };
    if digits.len() == 0 || !all_digits(digits) {
        None
    } else {
        let size = if digits_value(digits) <= MAX_EXPONENT { digits_value(digits) as int } else { MAX_EXPONENT as int };
        Some(if signed && s[0] == '-' { -size } else { size })
    }
}

/// The digits of a mantissa and how many of them stand before the point.
pub open spec fn mantissa_of(s: Seq<char>) -> Option<(Seq<char>, int)> {
    let (whole, fraction) = match split_once_of(s, '.') {
        Some((whole, fraction)) => (whole, fraction),
        None => (s, Seq::empty()),
    };
    let digits = whole + fraction;
    if digits.len() > 0 && all_digits(digits) {
        Some((digits, whole.len() as int))
    } else {
        None
    }
}

/// The digit at `i` of a digit string that goes on with zeros for ever.
pub open spec fn padded_digit(digits: Seq<char>, i: int) -> char {
    if 0 <= i < digits.len() {
        digits[i]
    } else {
        '0'
    }
}

/// The first `n` digits of a digit string that goes on with zeros for ever.
pub open spec fn padded_digits(digits: Seq<char>, n: nat) -> Seq<char> {
    Seq::new(n, |i: int| padded_digit(digits, i))
}

/// Whether a text is a word for a number that is not finite, in any case.
pub open spec fn is_not_finite_word(s: Seq<char>) -> bool {
    let lower = ascii_lower_of(s);
    lower == "inf"@ || lower == "infinity"@ || lower == "nan"@
}

/// The number that a text stands for.
pub open spec fn number_of(s: Seq<char>) -> Option<Number> {
    let signed = s.len() > 0 && (s[0] == '+' || s[0] == '-');
    let body = if signed { s.drop_first() } else { s };
    let mark = exponent_mark(body);
    let exponent = if mark < body.len() { exponent_of(body.skip(mark + 1)) } else { Some(0int) };
    if is_not_finite_word(body) {
        Some(Number::NotFinite)
    } else {
        match (mantissa_of(body.take(mark)), exponent) {
            (Some((digits, point)), Some(e)) => Some(
                Number::Finite { negative: signed && s[0] == '-', digits, point: point + e },
            ),
            _ => None,
        }
    }
}

proof fn lemma_digits_zero(s: Seq<char>)
    requires
        all_digits(s),
    ensures
        digits_value(s) == 0 <==> (forall|i: int| 0 <= i < s.len() ==> s[i] == '0'),
    decreases s.len(),
{
    if s.len() > 0 {
        let t = s.drop_last();
        assert forall|i: int| 0 <= i < t.len() implies is_digit(#[trigger] t[i]) by {
            assert(t[i] == s[i]);
        }
        lemma_digits_zero(t);
        assert(is_digit(s[s.len() - 1]));
        if digits_value(s) == 0 {
            assert forall|i: int| 0 <= i < s.len() implies s[i] == '0' by {
                if i < t.len() {
                    assert(t[i] == s[i]);
                }
            }
        } else if forall|i: int| 0 <= i < s.len() ==> s[i] == '0' {
            assert forall|i: int| 0 <= i < t.len() implies t[i] == '0' by {
                assert(t[i] == s[i]);
            }
        }
    }
}

pub fn only_zeros(digits: &[char]) -> (r: bool)
    requires
        all_digits(digits@),
    ensures
        r == (digits_value(digits@) == 0),
{
    let mut i: usize = 0;
    while i < digits.len()
        invariant
            i <= digits@.len(),
            all_digits(digits@),
            forall|j: int| 0 <= j < i ==> digits@[j] == '0',
        decreases digits@.len() - i,
    {
        if digits[i] != '0' {
            proof {
                lemma_digits_zero(digits@);
            }
            return false;
        }
        i += 1;
    }
    proof {
        lemma_digits_zero(digits@);
    }
    true
}

fn parse_exponent(s: &[char]) -> (r: Option<i64>)
    ensures
        match r {
            Some(e) => exponent_of(s@) == Some(e as int) && -1_000_000 <= e <= 1_000_000,
            None => exponent_of(s@) is None,
        },
{
    let signed: bool = s.len() > 0 && (s[0] == '+' || s[0] == '-');
    let digits = if signed {
        skip_chars(s, 1)
    } else {
        s
    };
    proof {
        if signed {
            assert(digits@ =~= s@.drop_first());
        }
    }
    match parse_digits_capped(digits, MAX_EXPONENT) {
        Some(size) => Some(if signed && s[0] == '-' { -(size as i64) } else { size as i64 }),
        None => None,
    }
}

/// The digits of a mantissa and how many of them stand before the point.
fn parse_mantissa(s: &[char]) -> (r: Option<(Vec<char>, usize)>)
    ensures
        match r {
            Some((digits, point)) => mantissa_of(s@) == Some((digits@, point as int)) && all_digits(digits@),
            None => mantissa_of(s@) is None,
        },
{
    let (whole, fraction) = match split_once(s, '.') {
        Some((whole, fraction)) => (whole, fraction),
        None => {
            let nothing = skip_chars(s, s.len());
            proof {
                assert(nothing@ =~= Seq::empty());
            }
            (s, nothing)
        },
    };
    let mut digits: Vec<char> = Vec::new();
    let mut i: usize = 0;
    while i < whole.len()
        invariant
            i <= whole@.len(),
            digits@ == whole@.take(i as int),
        decreases whole@.len() - i,
    {
        digits.push(whole[i]);
        proof {
            assert(whole@.take(i + 1) =~= whole@.take(i as int).push(whole@[i as int]));
        }
        i += 1;
    }
    let mut j: usize = 0;
    proof {
        assert(whole@.take(whole@.len() as int) + fraction@.take(0) =~= whole@.take(whole@.len() as int));
        assert(whole@.take(whole@.len() as int) =~= whole@);
    }
    while j < fraction.len()
        invariant
            j <= fraction@.len(),
            digits@ == whole@ + fraction@.take(j as int),
        decreases fraction@.len() - j,
    {
        digits.push(fraction[j]);
        proof {
            assert(whole@ + fraction@.take(j + 1) =~= (whole@ + fraction@.take(j as int)).push(fraction@[j as int]));
        }
        j += 1;
    }
    proof {
        assert(fraction@.take(j as int) =~= fraction@);
    }
    match parse_digits_capped(digits.as_slice(), 0) {
        Some(_) => Some((digits, whole.len())),
        None => None,
    }
}

/// A number that was read.
pub enum Decimal {
    Finite { negative: bool, digits: Vec<char>, point: i128 },
    NotFinite,
}

fn is_not_finite(s: &[char]) -> (r: bool)
    ensures
        r == is_not_finite_word(s@),
{
    let lower = to_ascii_lower(s);
    same_chars(lower.as_slice(), chars_of("inf").as_slice()) || same_chars(
        lower.as_slice(),
        chars_of("infinity").as_slice(),
    ) || same_chars(lower.as_slice(), chars_of("nan").as_slice())
}

/// Reads a number in decimal notation.
pub fn parse_number(s: &[char]) -> (r: Option<Decimal>)
    ensures
        match r {
            Some(Decimal::Finite { negative, digits, point }) => number_of(s@) == Some(
                Number::Finite { negative, digits: digits@, point: point as int },
            ) && digits@.len() > 0 && all_digits(digits@) && -1_000_000 <= point <= usize::MAX + 1_000_000,
            Some(Decimal::NotFinite) => number_of(s@) == Some(Number::NotFinite),
            None => number_of(s@) is None,
        },
{
    let signed: bool = s.len() > 0 && (s[0] == '+' || s[0] == '-');
    let negative: bool = signed && s[0] == '-';
    let body = if signed {
        skip_chars(s, 1)
    } else {
        s
    };
    proof {
        if signed {
            assert(body@ =~= s@.drop_first());
        }
        lemma_first_of(body@, 'e');
        lemma_first_of(body@, 'E');
    }
    if is_not_finite(body) {
        return Some(Decimal::NotFinite);
    }
    let length: usize = body.len();
    let lower: usize = match find_char(body, 'e') {
        Some(i) => i,
        None => length,
    };
    let upper: usize = match find_char(body, 'E') {
        Some(i) => i,
        None => length,
    };
    let mark: usize = if lower < upper {
        lower
    } else {
        upper
    };
    let exponent: i64 = if mark < length {
        match parse_exponent(skip_chars(body, mark + 1)) {
            Some(e) => e,
            None => {
                return None;
            },
        }
    } else {
        0
    };
    match parse_mantissa(take_chars(body, mark)) {
        Some((digits, point)) => Some(
            Decimal::Finite { negative, digits, point: point as i128 + exponent as i128 },
        ),
        None => None,
    }
}

/// Digits with a point among them are read as those digits, with the point
/// where it stood; a minus sign before them is read as one.
pub proof fn lemma_number_read(whole: Seq<char>, fraction: Seq<char>)
    requires
        whole.len() > 0,
        all_digits(whole),
        all_digits(fraction),
    ensures
        number_of(whole + "."@ + fraction) == Some(
            (Number::Finite { negative: false, digits: whole + fraction, point: whole.len() as int }),
        ),
        number_of("-"@ + (whole + "."@ + fraction)) == Some(
            (Number::Finite { negative: true, digits: whole + fraction, point: whole.len() as int }),
        ),
{
    reveal_strlit(".");
    reveal_strlit("-");
    reveal_strlit("inf");
    reveal_strlit("infinity");
    reveal_strlit("nan");
    let body = whole + "."@ + fraction;
    let n = whole.len() as int;
    assert forall|i: int| 0 <= i < body.len() implies body[i] != 'e' && body[i] != 'E' && (i < n ==> body[i] != '.') by {
        if i < n {
            assert(is_digit(whole[i]));
        } else if i > n {
            assert(is_digit(fraction[i - n - 1]));
        }
    }
    lemma_first_of_is(body, 'e', body.len() as int);
    lemma_first_of_is(body, 'E', body.len() as int);
    lemma_first_of_is(body, '.', n);
    assert(body.take(body.len() as int) =~= body);
    assert(body.take(n) =~= whole);
    assert(body.skip(n + 1) =~= fraction);
    assert(is_digit(whole[0]));
    assert(body[0] == whole[0]);
    let lower = ascii_lower_of(body);
    assert(lower[0] == body[0]);
    assert("inf"@[0] == 'i' && "infinity"@[0] == 'i' && "nan"@[0] == 'n');
    let digits = whole + fraction;
    assert forall|i: int| 0 <= i < digits.len() implies is_digit(#[trigger] digits[i]) by {
        if i < n {
            assert(is_digit(whole[i]));
        } else {
            assert(is_digit(fraction[i - n]));
        }
    }
    let signed = "-"@ + body;
    assert(signed[0] == '-');
    assert(signed.drop_first() =~= body);
}

} // verus!
