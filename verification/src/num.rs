//! Decimal numerals and padded columns.
use vstd::prelude::*;

use crate::text::{chars_of, string_of};

verus! {

/// The character of a decimal digit.
pub open spec fn digit_char(d: int) -> char {
    (48 + d) as char
}

/// The decimal numeral of a natural number.
pub open spec fn decimal(n: nat) -> Seq<char>
    decreases n,
{
    if n < 10 {
        seq![digit_char(n as int)]
    } else {
        decimal(n / 10).push(digit_char((n % 10) as int))
    }
}

/// The decimal numeral of an integer.
pub open spec fn decimal_int(n: int) -> Seq<char> {
    if n < 0 {
        seq!['-'] + decimal((-n) as nat)
    } else {
        decimal(n as nat)
    }
}

/// `k` times the character `c`.
pub open spec fn repeated(c: char, k: nat) -> Seq<char> {
    Seq::new(k, |i: int| c)
}

/// `s` with spaces behind it, to at least `width` characters.
pub open spec fn padded_right(s: Seq<char>, width: nat) -> Seq<char> {
    if s.len() >= width {
        s
    } else {
        s + repeated(' ', (width - s.len()) as nat)
    }
}

/// `s` with spaces before it, to at least `width` characters.
pub open spec fn padded_left(s: Seq<char>, width: nat) -> Seq<char> {
    if s.len() >= width {
        s
    } else {
        repeated(' ', (width - s.len()) as nat) + s
    }
}

/// The numeral of `n` with zeros behind the sign, to at least `width`
/// characters.
pub open spec fn zero_padded(n: int, width: nat) -> Seq<char> {
    let s = decimal_int(n);
    if s.len() >= width {
        s
    } else if n < 0 {
        seq!['-'] + repeated('0', (width - s.len()) as nat) + decimal((-n) as nat)
    } else {
        repeated('0', (width - s.len()) as nat) + s
    }
}

fn push_decimal(out: &mut Vec<char>, n: u128)
    ensures
        final(out)@ == old(out)@ + decimal(n as nat),
    decreases n,
{
    if n >= 10 {
        push_decimal(out, n / 10);
    }
    let d: u8 = (n % 10) as u8;
    out.push((48 + d) as char);
    proof {
        if n < 10 {
            assert(out@ =~= old(out)@ + decimal(n as nat));
        } else {
            assert(out@ =~= old(out)@ + decimal(n as nat));
        }
    }
}

/// Writes a natural number in decimal.
pub fn decimal_u128(n: u128) -> (out: String)
    ensures
        out@ == decimal(n as nat),
{
    let mut v: Vec<char> = Vec::new();
    push_decimal(&mut v, n);
    let out = string_of(&v);
    proof {
        assert(out@ =~= decimal(n as nat));
    }
    out
}

/// Writes a natural number in decimal.
pub fn decimal_u64(n: u64) -> (out: String)
    ensures
        out@ == decimal(n as nat),
{
    decimal_u128(n as u128)
}

/// Writes a count in decimal.
pub fn decimal_usize(n: usize) -> (out: String)
    ensures
        out@ == decimal(n as nat),
{
    decimal_u64(n as u64)
}

/// Writes an integer in decimal.
pub fn decimal_i64(n: i64) -> (out: String)
    ensures
        out@ == decimal_int(n as int),
{
    let mut v: Vec<char> = Vec::new();
    if n < 0 {
        let m: u128 = (-(n as i128)) as u128;
        v.push('-');
        push_decimal(&mut v, m);
        proof {
            assert(v@ =~= decimal_int(n as int));
        }
    } else {
        push_decimal(&mut v, n as u128);
        proof {
            assert(v@ =~= decimal_int(n as int));
        }
    }
    string_of(&v)
}

/// Writes `k` times the character `c`.
pub fn repeat_char(c: char, k: usize) -> (out: String)
    ensures
        out@ == repeated(c, k as nat),
{
    let mut out: String = String::new();
    for i in 0..k
        invariant
            out@ == repeated(c, i as nat),
    {
        out.push(c);
        proof {
            assert(repeated(c, (i + 1) as nat) =~= repeated(c, i as nat).push(c));
        }
    }
    out
}

/// Puts spaces behind a text, to at least `width` characters.
pub fn pad_right(s: &str, width: usize) -> (out: String)
    ensures
        out@ == padded_right(s@, width as nat),
{
    let n: usize = chars_of(s).len();
    let mut out: String = s.to_owned();
    if n < width {
        out.append(repeat_char(' ', width - n).as_str());
    }
    out
}

/// Puts spaces before a text, to at least `width` characters.
pub fn pad_left(s: &str, width: usize) -> (out: String)
    ensures
        out@ == padded_left(s@, width as nat),
{
    let n: usize = chars_of(s).len();
    if n < width {
        repeat_char(' ', width - n).concat(s)
    } else {
        s.to_owned()
    }
}

/// Writes an integer in decimal with zeros behind the sign, to at least
/// `width` characters.
pub fn zero_pad(n: i64, width: usize) -> (out: String)
    ensures
        out@ == zero_padded(n as int, width as nat),
{
    let s = decimal_i64(n);
    let len: usize = chars_of(s.as_str()).len();
    if len >= width {
        return s;
    }
    let zeros = repeat_char('0', width - len);
    if n < 0 {
        let m: u128 = (-(n as i128)) as u128;
        let digits = decimal_u128(m);
        proof {
            reveal_strlit("-");
            assert("-"@ =~= seq!['-']);
        }
        "-".to_owned().concat(zeros.as_str()).concat(digits.as_str())
    } else {
        zeros.concat(s.as_str())
    }
}

// ---------------------------------------------------------------------------
// Reading numerals
// ---------------------------------------------------------------------------

/// A decimal digit.
pub open spec fn is_digit(c: char) -> bool {
    '0' <= c && c <= '9'
}

/// The value of a decimal digit.
pub open spec fn digit_value(c: char) -> int {
    c as int - 48
}

/// The number that a row of decimal digits writes.
pub open spec fn numeral_value(s: Seq<char>) -> int
    decreases s.len(),
{
    if s.len() == 0 {
        0
    } else {
        10 * numeral_value(s.drop_last()) + digit_value(s.last())
    }
}

/// Whether `s` is a non-empty row of decimal digits.
pub open spec fn is_numeral(s: Seq<char>) -> bool {
    s.len() > 0 && forall|i: int| 0 <= i < s.len() ==> is_digit(#[trigger] s[i])
}

/// The digits of a numeral that may have a plus sign before it.
pub open spec fn without_plus(s: Seq<char>) -> Seq<char> {
    if s.len() > 0 && s[0] == '+' {
        s.skip(1)
    } else {
        s
    }
}

/// The natural number, up to `max`, that `s` writes in decimal, a plus sign
/// before it allowed.
pub open spec fn read_nat(s: Seq<char>, max: int) -> Option<int> {
    let d = without_plus(s);
    if is_numeral(d) && numeral_value(d) <= max {
        Some(numeral_value(d))
    } else {
        None
    }
}

/// A row of digits is worth no less than its beginning.
pub proof fn lemma_numeral_prefix(s: Seq<char>, k: int)
    requires
        0 <= k <= s.len(),
        forall|i: int| 0 <= i < s.len() ==> is_digit(#[trigger] s[i]),
    ensures
        0 <= numeral_value(s.take(k)) <= numeral_value(s),
    decreases s.len(),
{
    if k < s.len() {
        let t = s.drop_last();
        assert forall|i: int| 0 <= i < t.len() implies is_digit(#[trigger] t[i]) by {
            assert(t[i] == s[i]);
        }
        lemma_numeral_prefix(t, k);
        assert(t.take(k) =~= s.take(k));
        assert(is_digit(s[s.len() - 1]));
    } else {
        assert(s.take(k) =~= s);
        if s.len() > 0 {
            let t = s.drop_last();
            assert forall|i: int| 0 <= i < t.len() implies is_digit(#[trigger] t[i]) by {
                assert(t[i] == s[i]);
            }
            lemma_numeral_prefix(t, t.len() as int);
            assert(t.take(t.len() as int) =~= t);
            assert(is_digit(s[s.len() - 1]));
        }
    }
}

/// The value of a row of digits from `from` on, if it is a numeral up to `max`.
fn read_digits(v: &Vec<char>, from: usize, max: u64) -> (r: Option<u64>)
    requires
        from <= v@.len(),
    ensures
        ({
            let d = v@.skip(from as int);
            match r {
                Some(x) => is_numeral(d) && numeral_value(d) == x && x <= max,
                None => !(is_numeral(d) && numeral_value(d) <= max),
            }
        }),
{
    let n: usize = v.len();
    let ghost d = v@.skip(from as int);
    if from == n {
        return None;
    }
    let mut i: usize = from;
    while i < n
        invariant
            from <= i <= n,
            n == v@.len(),
            d == v@.skip(from as int),
            forall|k: int| 0 <= k < i - from ==> is_digit(#[trigger] d[k]),
        decreases n - i,
    {
        let c = v[i];
        if !('0' <= c && c <= '9') {
            proof {
                assert(d[i - from] == c);
                assert(!is_numeral(d));
            }
            return None;
        }
        i = i + 1;
    }
    let mut acc: u64 = 0;
    let mut j: usize = from;
    proof {
        assert(d.take(0) =~= Seq::<char>::empty());
    }
    while j < n
        invariant
            from <= j <= n,
            n == v@.len(),
            d == v@.skip(from as int),
            is_numeral(d),
            acc == numeral_value(d.take(j - from)),
            acc <= max,
        decreases n - j,
    {
        let c = v[j];
        proof {
            assert(d[j - from] == c);
            assert(is_digit(c));
            assert(d.take(j + 1 - from).drop_last() =~= d.take(j - from));
            lemma_numeral_prefix(d, j + 1 - from);
        }
        let x: u64 = (c as u8 - 48) as u64;
        let next: u128 = 10 * (acc as u128) + (x as u128);
        if next > max as u128 {
            return None;
        }
        acc = next as u64;
        j = j + 1;
    }
    proof {
        assert(d.take(d.len() as int) =~= d);
    }
    Some(acc)
}

/// Reads a natural number up to `max`, a plus sign before it allowed.
pub fn parse_nat(s: &str, max: u64) -> (r: Option<u64>)
    ensures
        match r {
            Some(n) => read_nat(s@, max as int) == Some(n as int),
            None => read_nat(s@, max as int) is None,
        },
{
    let v = chars_of(s);
    let from: usize = if v.len() > 0 && v[0] == '+' {
        1
    } else {
        0
    };
    proof {
        assert(v@.skip(0) =~= v@);
    }
    read_digits(&v, from, max)
}

/// The numeral of a number reads back as the number.
pub proof fn decimal_reads_back(n: nat)
    ensures
        is_numeral(decimal(n)),
        numeral_value(decimal(n)) == n,
        read_nat(decimal(n), n as int) == Some(n as int),
    decreases n,
{
    if n < 10 {
        let s = decimal(n);
        assert(s.drop_last() =~= Seq::<char>::empty());
        assert(numeral_value(s.drop_last()) == 0);
        assert(without_plus(s) == s);
    } else {
        decimal_reads_back(n / 10);
        let s = decimal(n);
        assert(s.drop_last() =~= decimal(n / 10));
        assert forall|i: int| 0 <= i < s.len() implies is_digit(#[trigger] s[i]) by {
            if i < s.len() - 1 {
                assert(s[i] == decimal(n / 10)[i]);
            }
        }
        assert(is_digit(s[0]));
        assert(without_plus(s) == s);
    }
}

/// A digit is read back as the number that it was written for.
pub proof fn lemma_digit_char(d: int)
    requires
        0 <= d <= 9,
    ensures
        is_digit(digit_char(d)),
        digit_value(digit_char(d)) == d,
{
}

/// A number below a hundred is padded to its two digits.
pub proof fn lemma_two_digits(n: int)
    requires
        0 <= n <= 99,
    ensures
        zero_padded(n, 2) == seq![digit_char(n / 10), digit_char(n % 10)],
{
    reveal_with_fuel(decimal, 2);
    assert(zero_padded(n, 2) =~= seq![digit_char(n / 10), digit_char(n % 10)]);
}

/// A number below ten thousand is padded to its four digits.
pub proof fn lemma_four_digits(n: int)
    requires
        0 <= n <= 9999,
    ensures
        zero_padded(n, 4) == seq![
            digit_char(n / 1000),
            digit_char((n / 100) % 10),
            digit_char((n / 10) % 10),
            digit_char(n % 10),
        ],
{
    reveal_with_fuel(decimal, 4);
    let m = n as nat;
    assert((m / 10) / 10 == n / 100);
    assert(((m / 10) / 10) / 10 == n / 1000);
    assert(zero_padded(n, 4) =~= seq![
        digit_char(n / 1000),
        digit_char((n / 100) % 10),
        digit_char((n / 10) % 10),
        digit_char(n % 10),
    ]);
}

/// A padded text keeps the text at its side and fills up with spaces to the width; a text
/// that is wider stays what it is.
pub proof fn padding_fills_up(s: Seq<char>, width: nat, i: int)
    requires
        0 <= i < s.len(),
    ensures
        padded_right(s, width).len() == (if s.len() < width {
            width
        } else {
            s.len()
        }),
        padded_left(s, width).len() == padded_right(s, width).len(),
        padded_right(s, width)[i] == s[i],
        padded_left(s, width)[padded_left(s, width).len() - s.len() + i] == s[i],
        forall|k: int|
            s.len() <= k < padded_right(s, width).len() ==> #[trigger] padded_right(s, width)[k]
                == ' ',
        forall|k: int|
            0 <= k < padded_left(s, width).len() - s.len() ==> #[trigger] padded_left(s, width)[k]
                == ' ',
{
}

/// A numeral is worth ten times what stands ahead of its last digit, and that digit; it has
/// no zero ahead unless it is that of zero.
pub proof fn numerals_count_by_ten(s: Seq<char>, d: int, n: nat)
    requires
        0 <= d <= 9,
    ensures
        numeral_value(s.push(digit_char(d))) == 10 * numeral_value(s) + d,
        numeral_value(Seq::empty()) == 0,
        digit_char(0) == '0' && digit_char(1) == '1' && digit_char(9) == '9',
        n > 0 ==> decimal(n)[0] != '0' && decimal(n).len() > 0,
        decimal(0) == seq!['0'],
    decreases n,
{
    assert(s.push(digit_char(d)).drop_last() =~= s);
    lemma_digit_char(d);
    if n >= 10 {
        numerals_count_by_ten(s, d, n / 10);
    }
}

} // verus!
