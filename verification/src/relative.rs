//! Relative time spans such as `30d`.
use vstd::prelude::*;

use crate::num::{
    is_digit, is_numeral, lemma_numeral_prefix, numeral_value, parse_nat, without_plus,
};
use crate::outside::{debug_of, debug_text};
use crate::text::{chars_of, same, substring, trim, trimmed};

verus! {

/// The number of digits at the beginning of `s`.
pub open spec fn digits_ahead(s: Seq<char>) -> int
    decreases s.len(),
{
    if s.len() > 0 && is_digit(s[0]) {
        1 + digits_ahead(s.skip(1))
    } else {
        0
    }
}

/// The milliseconds of a unit.
pub open spec fn unit_ms(unit: Seq<char>) -> Option<int> {
    if unit == "s"@ {
        Some(1_000)
    } else if unit == "m"@ {
        Some(60_000)
    } else if unit == "h"@ {
        Some(3_600_000)
    } else if unit == "d"@ {
        Some(86_400_000)
    } else if unit == "w"@ {
        Some(604_800_000)
    } else {
        None
    }
}

/// A number of milliseconds, or the greatest that the type of times holds.
pub open spec fn capped_ms(n: int) -> int {
    if n > i64::MAX {
        i64::MAX as int
    } else {
        n
    }
}

/// The milliseconds of a span: a number, however great, then one unit. None where
/// the text is no such thing.
pub open spec fn span_of(input: Seq<char>) -> Option<int> {
    let s = trimmed(input);
    let k = digits_ahead(s);
    let n = numeral_value(s.take(k));
    match unit_ms(s.skip(k)) {
        Some(unit) => if 0 < k {
            Some(capped_ms(n * unit))
        } else {
            None
        },
        None => None,
    }
}

/// A text that is no relative span.
#[derive(Debug, Clone, PartialEq, Eq)]
pub struct RelativeError {
    /// The text.
    pub input: String,
}

/// What is said of a text that is no relative span.
pub open spec fn relative_message(input: Seq<char>) -> Seq<char> {
    "invalid --since value "@ + debug_of(input)
        + ": expected a number followed by a unit (s, m, h, d, w), e.g. 30d"@
}

impl RelativeError {
    /// What is said of the text.
    pub fn message(&self) -> (r: String)
        ensures
            r@ == relative_message(self.input@),
    {
        "invalid --since value ".to_owned().concat(debug_text(self.input.as_str()).as_str()).concat(
            ": expected a number followed by a unit (s, m, h, d, w), e.g. 30d",
        )
    }
}

fn leading_digits(v: &Vec<char>) -> (k: usize)
    ensures
        k == digits_ahead(v@),
        k <= v@.len(),
        forall|i: int| 0 <= i < k ==> is_digit(#[trigger] v@[i]),
{
    let mut k: usize = 0;
    proof {
        assert(v@.skip(0) =~= v@);
    }
    while k < v.len() && '0' <= v[k] && v[k] <= '9'
        invariant
            k <= v@.len(),
            digits_ahead(v@) == k + digits_ahead(v@.skip(k as int)),
            forall|i: int| 0 <= i < k ==> is_digit(#[trigger] v@[i]),
        decreases v@.len() - k,
    {
        proof {
            assert(v@.skip(k as int).skip(1) =~= v@.skip(k + 1));
            assert(v@.skip(k as int)[0] == v@[k as int]);
        }
        k = k + 1;
    }
    proof {
        if k < v@.len() {
            assert(v@.skip(k as int)[0] == v@[k as int]);
        }
    }
    k
}

fn scaled(n: u64, unit: u64) -> (r: i64)
    requires
        n <= i64::MAX,
        unit <= 604_800_000,
    ensures
        r == capped_ms(n * unit),
{
    assert(0 <= n * unit <= 9_223_372_036_854_775_807 * 604_800_000) by (nonlinear_arith)
        requires
            0 <= n <= 9_223_372_036_854_775_807,
            0 <= unit <= 604_800_000,
    ;
    let p: u128 = n as u128 * unit as u128;
    if p > i64::MAX as u128 {
        i64::MAX
    } else {
        p as i64
    }
}

/// Reads a relative span, in milliseconds. A span that is too great for the type
/// of times is as great as the type holds.
pub fn parse_relative_ms(input: &str) -> (r: Result<i64, RelativeError>)
    ensures
        match r {
            Ok(ms) => span_of(input@) == Some(ms as int),
            Err(e) => span_of(input@) is None && e.input@ == input@,
        },
{
    let s = trim(input);
    let v = chars_of(s.as_str());
    let k: usize = leading_digits(&v);
    let number = substring(&v, 0, k);
    let unit = substring(&v, k, v.len());
    proof {
        assert(number@ =~= s@.take(k as int));
        assert(unit@ =~= s@.skip(k as int));
    }
    let scale: Option<u64> = if same(unit.as_str(), "s") {
        Some(1_000)
    } else if same(unit.as_str(), "m") {
        Some(60_000)
    } else if same(unit.as_str(), "h") {
        Some(3_600_000)
    } else if same(unit.as_str(), "d") {
        Some(86_400_000)
    } else if same(unit.as_str(), "w") {
        Some(604_800_000)
    } else {
        None
    };
    if k == 0 {
        return Err(RelativeError { input: input.to_owned() });
    }
    proof {
        assert forall|i: int| 0 <= i < number@.len() implies is_digit(#[trigger] number@[i]) by {
            assert(number@[i] == v@[i]);
        }
        assert(is_digit(number@[0]));
        assert(without_plus(number@) == number@);
        assert(is_numeral(number@));
    }
    let unit_len: u64 = match scale {
        Some(u) => u,
        None => {
            return Err(RelativeError { input: input.to_owned() });
        },
    };
    match parse_nat(number.as_str(), i64::MAX as u64) {
        Some(n) => Ok(scaled(n, unit_len)),
        None => {
            proof {
                lemma_great_numbers_are_capped(numeral_value(number@), unit_len as int);
            }
            Ok(i64::MAX)
        },
    }
}

/// A number that is too great alone is too great in every unit.
proof fn lemma_great_numbers_are_capped(n: int, unit: int)
    requires
        n > i64::MAX,
        unit >= 1,
    ensures
        capped_ms(n * unit) == i64::MAX,
{
    assert(n * unit >= n) by (nonlinear_arith)
        requires
            n > 0,
            unit >= 1,
    ;
}

/// A span is never negative.
pub proof fn spans_are_not_negative(input: Seq<char>)
    ensures
        span_of(input) matches Some(ms) ==> 0 <= ms <= i64::MAX,
{
    let s = trimmed(input);
    let k = digits_ahead(s);
    match span_of(input) {
        Some(ms) => {
            lemma_digits_ahead(s);
            let t = s.take(k);
            assert forall|i: int| 0 <= i < t.len() implies is_digit(#[trigger] t[i]) by {
                assert(t[i] == s[i]);
            }
            lemma_numeral_prefix(t, 0);
            let n = numeral_value(t);
            let u = unit_ms(s.skip(k))->0;
            assert(n * u >= 0) by (nonlinear_arith)
                requires
                    n >= 0,
                    u >= 0,
            ;
        },
        None => {},
    }
}

proof fn lemma_digits_ahead(s: Seq<char>)
    ensures
        0 <= digits_ahead(s) <= s.len(),
        forall|i: int| 0 <= i < digits_ahead(s) ==> is_digit(#[trigger] s[i]),
    decreases s.len(),
{
    if s.len() > 0 && is_digit(s[0]) {
        lemma_digits_ahead(s.skip(1));
        assert forall|i: int| 0 <= i < digits_ahead(s) implies is_digit(#[trigger] s[i]) by {
            if i > 0 {
                assert(s.skip(1)[i - 1] == s[i]);
            }
        }
    }
}

/// A span is accepted however great its number is: every text of digits and one
/// unit is a span.
pub proof fn every_number_is_a_span(number: Seq<char>, unit: Seq<char>, input: Seq<char>)
    requires
        is_numeral(number),
        unit_ms(unit) is Some,
        trimmed(input) == number + unit,
    ensures
        span_of(input) == Some(capped_ms(numeral_value(number) * unit_ms(unit)->0)),
{
    let s = number + unit;
    reveal_strlit("s");
    reveal_strlit("m");
    reveal_strlit("h");
    reveal_strlit("d");
    reveal_strlit("w");
    assert(unit.len() == 1 && !is_digit(unit[0]));
    assert forall|i: int| 0 <= i < number.len() implies is_digit(#[trigger] s[i]) by {
        assert(s[i] == number[i]);
    }
    assert(s[number.len() as int] == unit[0]);
    lemma_digits_ahead_is(s, number.len() as int);
    assert(s.take(number.len() as int) =~= number);
    assert(s.skip(number.len() as int) =~= unit);
}

proof fn lemma_digits_ahead_is(s: Seq<char>, k: int)
    requires
        0 <= k < s.len(),
        forall|i: int| 0 <= i < k ==> is_digit(#[trigger] s[i]),
        !is_digit(s[k]),
    ensures
        digits_ahead(s) == k,
    decreases k,
{
    if k > 0 {
        let t = s.skip(1);
        assert(is_digit(s[0]));
        assert forall|i: int| 0 <= i < k - 1 implies is_digit(#[trigger] t[i]) by {
            assert(t[i] == s[i + 1]);
        }
        assert(t[k - 1] == s[k]);
        lemma_digits_ahead_is(t, k - 1);
    }
}

/// The letters of the units, and the milliseconds of each.
pub open spec fn unit_letters() -> Seq<(char, int)> {
    seq![
        ('s', 1000int),
        ('m', 60int * 1000),
        ('h', 60int * 60 * 1000),
        ('d', 24int * 60 * 60 * 1000),
        ('w', 7int * 24 * 60 * 60 * 1000),
    ]
}

/// A number and the letter of a unit are so many of the unit.
pub proof fn spans_count_their_unit(number: Seq<char>, i: int, input: Seq<char>)
    requires
        is_numeral(number),
        0 <= i < 5,
        trimmed(input) == number.push(unit_letters()[i].0),
    ensures
        numeral_value(number) * unit_letters()[i].1 <= i64::MAX ==> span_of(input) == Some(
            numeral_value(number) * unit_letters()[i].1,
        ),
        numeral_value(number) * unit_letters()[i].1 > i64::MAX ==> span_of(input) == Some(
            i64::MAX as int,
        ),
{
    reveal_strlit("s");
    reveal_strlit("m");
    reveal_strlit("h");
    reveal_strlit("d");
    reveal_strlit("w");
    let unit = seq![unit_letters()[i].0];
    assert(number.push(unit_letters()[i].0) =~= number + unit);
    assert(unit =~= "s"@ || unit =~= "m"@ || unit =~= "h"@ || unit =~= "d"@ || unit =~= "w"@);
    assert("s"@[0] == 's' && "m"@[0] == 'm' && "h"@[0] == 'h' && "d"@[0] == 'd' && "w"@[0] == 'w');
    assert(unit[0] == unit_letters()[i].0);
    every_number_is_a_span(number, unit, input);
}

/// A text that is no number with the letter of a unit behind it is no span.
pub proof fn nothing_else_is_a_span(input: Seq<char>)
    requires
        span_of(input) is Some,
    ensures
        exists|number: Seq<char>, i: int|
            is_numeral(number) && 0 <= i < 5 && trimmed(input) == #[trigger] number.push(
                #[trigger] unit_letters()[i].0,
            ),
{
    reveal_strlit("s");
    reveal_strlit("m");
    reveal_strlit("h");
    reveal_strlit("d");
    reveal_strlit("w");
    let s = trimmed(input);
    let k = digits_ahead(s);
    lemma_digits_ahead(s);
    let number = s.take(k);
    let unit = s.skip(k);
    assert forall|i: int| 0 <= i < number.len() implies is_digit(#[trigger] number[i]) by {
        assert(number[i] == s[i]);
    }
    assert(is_numeral(number));
    assert(unit.len() == 1);
    let all = unit_letters();
    let i: int = if unit == "s"@ {
        0
    } else if unit == "m"@ {
        1
    } else if unit == "h"@ {
        2
    } else if unit == "d"@ {
        3
    } else {
        4
    };
    assert(all[0].0 == 's' && all[1].0 == 'm' && all[2].0 == 'h' && all[3].0 == 'd' && all[4].0
        == 'w');
    assert(unit[0] == all[i].0);
    assert(s[k] == unit[0]);
    assert(s =~= number.push(all[i].0));
}

} // verus!
