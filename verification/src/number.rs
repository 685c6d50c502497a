//! Decimal numbers in text: reading them as `str::parse` does for unsigned
//! integers, and writing them as `Display` does.
use vstd::prelude::*;
use crate::text::{push_char, string_of};

verus! {

pub open spec fn is_ascii_digit(c: char) -> bool {
    '0' <= c && c <= '9'
}

pub open spec fn all_ascii_digits(s: Seq<char>) -> bool {
    forall|i: int| 0 <= i < s.len() ==> is_ascii_digit(#[trigger] s[i])
}

/// The value of the digit `c`.
pub open spec fn digit_value(c: char) -> nat {
    (c as int - '0' as int) as nat
}

/// The value of the decimal numeral `s`, most significant digit first.
pub open spec fn decimal_value(s: Seq<char>) -> nat
    decreases s.len(),
{
    if s.len() == 0 {
        0
    } else {
        decimal_value(s.drop_last()) * 10 + digit_value(s.last())
    }
}

/// What `str::parse` gives for an unsigned integer type whose largest value
/// is `max`: one optional leading `+`, then at least one ASCII digit, and a
/// value that fits; `None` stands for the error.
pub open spec fn parse_unsigned_spec(s: Seq<char>, max: nat) -> Option<nat> {
    let digits = if s.len() > 0 && s[0] == '+' {
        s.drop_first()
    } else {
        s
    };
    if digits.len() > 0 && all_ascii_digits(digits) && decimal_value(digits) <= max {
        Some(decimal_value(digits))
    } else {
        None
    }
}

proof fn lemma_decimal_value_prefix(s: Seq<char>, k: int)
    requires
        0 <= k <= s.len(),
    ensures
        decimal_value(s.take(k)) <= decimal_value(s),
    decreases s.len(),
{
    if k < s.len() {
        assert(s.drop_last().take(k) == s.take(k));
        lemma_decimal_value_prefix(s.drop_last(), k);
    } else {
        assert(s.take(k) == s);
    }
}

proof fn lemma_parse_unsigned_digits(s: Seq<char>, max: nat, digits: Seq<char>)
    requires
        digits == (if s.len() > 0 && s[0] == '+' {
            s.drop_first()
        } else {
            s
        }),
    ensures
        parse_unsigned_spec(s, max) == (if digits.len() > 0 && all_ascii_digits(digits)
            && decimal_value(digits) <= max {
            Some(decimal_value(digits))
        } else {
            None
        }),
{
}

/// Reads `s` as `str::parse` reads an unsigned integer no larger than `max`.
pub fn parse_unsigned(s: &Vec<char>, max: usize) -> (r: Option<usize>)
    ensures
        (r is Some) == (parse_unsigned_spec(s@, max as nat) is Some),
        r matches Some(v) ==> v == parse_unsigned_spec(s@, max as nat)->0,
{
    let start: usize = if s.len() > 0 && s[0] == '+' {
        1
    } else {
        0
    };
    let ghost digits = if s@.len() > 0 && s@[0] == '+' {
        s@.drop_first()
    } else {
        s@
    };
    assert(digits == s@.skip(start as int));
    proof {
        lemma_parse_unsigned_digits(s@, max as nat, digits);
    }
    if start == s.len() {
        assert(digits.len() == 0);
        return None;
    }
    let mut val: usize = 0;
    let mut i: usize = start;
    assert(s@.subrange(start as int, start as int) == Seq::<char>::empty());
    while i < s.len()
        invariant
            start <= i <= s.len(),
            digits == s@.skip(start as int),
            digits.len() > 0,
            parse_unsigned_spec(s@, max as nat) == (if all_ascii_digits(digits) && decimal_value(
                digits,
            ) <= max {
                Some(decimal_value(digits))
            } else {
                None
            }),
            all_ascii_digits(s@.subrange(start as int, i as int)),
            val == decimal_value(s@.subrange(start as int, i as int)),
            val <= max,
        decreases s.len() - i,
    {
        let c = s[i];
        if !('0' <= c && c <= '9') {
            assert(!is_ascii_digit(digits[i - start]));
            return None;
        }
        let d: usize = (c as u32 - '0' as u32) as usize;
        let ghost next = s@.subrange(start as int, i + 1);
        assert(next.drop_last() == s@.subrange(start as int, i as int));
        assert(decimal_value(next) == val * 10 + d);
        if d > max || val > (max - d) / 10 {
            assert(val * 10 + d > max) by (nonlinear_arith)
                requires
                    d > max || val > (max - d) / 10,
                    d <= 9,
            ;
            proof {
                assert(next == digits.take(i + 1 - start));
                lemma_decimal_value_prefix(digits, i + 1 - start);
                assert(decimal_value(digits) > max);
                assert(parse_unsigned_spec(s@, max as nat) is None);
            }
            return None;
        }
        assert(val * 10 + d <= max) by (nonlinear_arith)
            requires
                val <= (max - d) / 10,
                d <= max,
        ;
        val = val * 10 + d;
        i = i + 1;
    }
    assert(s@.subrange(start as int, s.len() as int) == digits);
    Some(val)
}

/// The decimal digit character for `d < 10`.
pub open spec fn digit_char(d: nat) -> char {
    if d == 0 {
        '0'
    } else if d == 1 {
        '1'
    } else if d == 2 {
        '2'
    } else if d == 3 {
        '3'
    } else if d == 4 {
        '4'
    } else if d == 5 {
        '5'
    } else if d == 6 {
        '6'
    } else if d == 7 {
        '7'
    } else if d == 8 {
        '8'
    } else {
        '9'
    }
}

/// The decimal numeral of `n`, without leading zeros, as `Display` writes it.
pub open spec fn decimal_spec(n: nat) -> Seq<char>
    decreases n,
{
    if n < 10 {
        seq![digit_char(n)]
    } else {
        decimal_spec(n / 10).push(digit_char(n % 10))
    }
}

fn digit_of(d: usize) -> (c: char)
    requires
        d < 10,
    ensures
        c == digit_char(d as nat),
{
    if d == 0 {
        '0'
    } else if d == 1 {
        '1'
    } else if d == 2 {
        '2'
    } else if d == 3 {
        '3'
    } else if d == 4 {
        '4'
    } else if d == 5 {
        '5'
    } else if d == 6 {
        '6'
    } else if d == 7 {
        '7'
    } else if d == 8 {
        '8'
    } else {
        '9'
    }
}

/// The characters of the decimal numeral of `n`.
pub fn decimal_chars(n: usize) -> (r: Vec<char>)
    ensures
        r@ == decimal_spec(n as nat),
    decreases n,
{
    if n < 10 {
        let mut v: Vec<char> = Vec::new();
        v.push(digit_of(n));
        v
    } else {
        let mut v = decimal_chars(n / 10);
        v.push(digit_of(n % 10));
        v
    }
}

/// The decimal numeral of `n`, as `n.to_string()` gives it.
pub fn decimal_string(n: usize) -> (r: String)
    ensures
        r@ == decimal_spec(n as nat),
{
    let v = decimal_chars(n);
    string_of(&v)
}

/// Appends the decimal numeral of `n` to `s`.
pub fn push_decimal(s: &mut String, n: usize)
    ensures
        final(s)@ == old(s)@ + decimal_spec(n as nat),
{
    let v = decimal_chars(n);
    let ghost start = s@;
    let mut i: usize = 0;
    while i < v.len()
        invariant
            i <= v.len(),
            v@ == decimal_spec(n as nat),
            s@ == start + v@.take(i as int),
        decreases v.len() - i,
    {
        push_char(s, v[i]);
        assert(start + v@.take(i + 1) == (start + v@.take(i as int)).push(v@[i as int]));
        i = i + 1;
    }
    assert(v@.take(v.len() as int) == v@);
}

proof fn lemma_digit_char(d: nat)
    requires
        d < 10,
    ensures
        is_ascii_digit(digit_char(d)),
        digit_value(digit_char(d)) == d,
        digit_char(d) != '+',
{
}

proof fn lemma_decimal_spec_digits(n: nat)
    ensures
        decimal_spec(n).len() > 0,
        all_ascii_digits(decimal_spec(n)),
        decimal_value(decimal_spec(n)) == n,
        decimal_spec(n)[0] != '+',
    decreases n,
{
    lemma_digit_char(n % 10);
    if n < 10 {
        lemma_digit_char(n);
        assert(seq![digit_char(n)].drop_last() == Seq::<char>::empty());
        assert(decimal_value(Seq::<char>::empty()) == 0);
        assert(decimal_value(decimal_spec(n)) == 0 * 10 + digit_value(digit_char(n)));
    } else {
        lemma_decimal_spec_digits(n / 10);
        let s = decimal_spec(n);
        assert(s.drop_last() == decimal_spec(n / 10));
        assert(all_ascii_digits(s)) by {
            assert forall|i: int| 0 <= i < s.len() implies is_ascii_digit(#[trigger] s[i]) by {
                if i < s.len() - 1 {
                    assert(s[i] == decimal_spec(n / 10)[i]);
                }
            }
        }
        assert(n == (n / 10) * 10 + n % 10);
        assert(decimal_value(s) == decimal_value(decimal_spec(n / 10)) * 10 + digit_value(
            digit_char(n % 10),
        ));
    }
}

/// A number written in decimal reads back as the same number: the number in
/// front of a menu line, typed back, selects that line.
pub proof fn lemma_decimal_parses_back(n: nat, max: nat)
    requires
        n <= max,
    ensures
        parse_unsigned_spec(decimal_spec(n), max) == Some(n),
{
    lemma_decimal_spec_digits(n);
}

/// The empty numeral has value 0, and one more digit at the end multiplies
/// the value by ten and adds the digit's value.
pub proof fn lemma_decimal_value_step(d: Seq<char>, c: char)
    requires
        is_ascii_digit(c),
    ensures
        decimal_value(Seq::<char>::empty()) == 0,
        decimal_value(d.push(c)) == decimal_value(d) * 10 + (c as int - '0' as int),
{
    assert(d.push(c).drop_last() == d);
}

/// A non-empty string of ASCII digits reads as its value where that fits.
pub proof fn lemma_parse_digits(d: Seq<char>, max: nat)
    requires
        d.len() > 0,
        all_ascii_digits(d),
    ensures
        parse_unsigned_spec(d, max) == (if decimal_value(d) <= max {
            Some(decimal_value(d))
        } else {
            None
        }),
{
    assert(is_ascii_digit(d[0]));
    lemma_parse_unsigned_digits(d, max, d);
}

/// One leading `+` before digits is allowed and changes nothing.
pub proof fn lemma_parse_plus(d: Seq<char>, max: nat)
    requires
        d.len() > 0,
        d[0] != '+',
    ensures
        parse_unsigned_spec(seq!['+'] + d, max) == parse_unsigned_spec(d, max),
{
    let s = seq!['+'] + d;
    assert(s[0] == '+');
    assert(s.drop_first() == d);
    lemma_parse_unsigned_digits(s, max, d);
    lemma_parse_unsigned_digits(d, max, d);
}

/// Nothing, and any character other than a digit (past one leading `+`),
/// makes the text no number.
pub proof fn lemma_parse_rejects(s: Seq<char>, max: nat, i: int)
    requires
        0 <= i < s.len(),
        !is_ascii_digit(s[i]),
        !(i == 0 && s[0] == '+'),
    ensures
        parse_unsigned_spec(Seq::<char>::empty(), max) is None,
        parse_unsigned_spec(s, max) is None,
{
    if s.len() > 0 && s[0] == '+' {
        let d = s.drop_first();
        assert(d[i - 1] == s[i]);
        lemma_parse_unsigned_digits(s, max, d);
    } else {
        lemma_parse_unsigned_digits(s, max, s);
    }
}

/// The decimal numeral of `n` is a non-empty string of ASCII digits, worth
/// `n`, with no leading zero.
pub proof fn lemma_decimal_spec_numeral(n: nat)
    ensures
        decimal_spec(n).len() > 0,
        all_ascii_digits(decimal_spec(n)),
        decimal_value(decimal_spec(n)) == n,
        n > 0 ==> decimal_spec(n)[0] != '0',
    decreases n,
{
    lemma_decimal_spec_digits(n);
    if n >= 10 {
        lemma_decimal_spec_numeral(n / 10);
        assert(decimal_spec(n)[0] == decimal_spec(n / 10)[0]);
    }
}

} // verus!
