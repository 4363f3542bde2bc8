//! Decimal formatting of prices. A price is stored as a whole number of
//! cents; the listing endpoint renders it as a decimal string with exactly
//! two digits after the decimal point.

use vstd::prelude::*;

verus! {

/// The character for a single decimal digit value.
pub open spec fn spec_digit_char(d: int) -> char {
    if d == 0 {
        '0'
    } else if d == 1 {
        '1'
    } else if d == 2 {
        '2'
    } else if d == 3 {
        '3'
    } else if d == 4 {
        '4'
    } else if d == 5 {
        '5'
    } else if d == 6 {
        '6'
    } else if d == 7 {
        '7'
    } else if d == 8 {
        '8'
    } else {
        '9'
    }
}

/// Whether a character is a decimal digit.
pub open spec fn is_digit_char(c: char) -> bool {
    c == '0' || c == '1' || c == '2' || c == '3' || c == '4' || c == '5' || c == '6' || c == '7'
        || c == '8' || c == '9'
}

/// The numeric value of a decimal digit character.
pub open spec fn digit_val(c: char) -> int {
    if c == '0' {
        0
    } else if c == '1' {
        1
    } else if c == '2' {
        2
    } else if c == '3' {
        3
    } else if c == '4' {
        4
    } else if c == '5' {
        5
    } else if c == '6' {
        6
    } else if c == '7' {
        7
    } else if c == '8' {
        8
    } else {
        9
    }
}

/// The usual decimal representation of `n`: most significant digit first,
/// no leading zero except for `n == 0` itself.
pub open spec fn spec_decimal_digits(n: nat) -> Seq<char>
    decreases n,
{
    if n < 10 {
        seq![spec_digit_char(n as int)]
    } else {
        spec_decimal_digits(n / 10) + seq![spec_digit_char((n % 10) as int)]
    }
}

/// The number denoted by a sequence of digit characters (most significant
/// digit first).
pub open spec fn digits_value(s: Seq<char>) -> int
    decreases s.len(),
{
    if s.len() == 0 {
        0
    } else {
        digits_value(s.drop_last()) * 10 + digit_val(s.last())
    }
}

/// A price of `cents` cents rendered as a decimal string: the whole number
/// of currency units, a point, then exactly two digits of cents.
pub open spec fn spec_price_string(cents: u64) -> Seq<char> {
    spec_decimal_digits((cents / 100) as nat) + seq!['.'] + seq![
        spec_digit_char(((cents / 10) % 10) as int),
        spec_digit_char((cents % 10) as int),
    ]
}

/// Whether `s` is a price formatted with exactly two decimal places: at
/// least one digit, then a decimal point, then exactly two digits, and no
/// other decimal point anywhere.
pub open spec fn has_two_decimal_places(s: Seq<char>) -> bool {
    &&& s.len() >= 4
    &&& s[s.len() - 3] == '.'
    &&& is_digit_char(s[s.len() - 2])
    &&& is_digit_char(s[s.len() - 1])
    &&& forall|i: int| 0 <= i < s.len() - 3 ==> is_digit_char(#[trigger] s[i])
}

/// The decimal representation of a number consists of digit characters
/// only, and is never empty.
pub proof fn lemma_decimal_digits_are_digits(n: nat)
    ensures
        spec_decimal_digits(n).len() >= 1,
        forall|i: int|
            0 <= i < spec_decimal_digits(n).len() ==> is_digit_char(
                #[trigger] spec_decimal_digits(n)[i],
            ),
    decreases n,
{
    if n >= 10 {
        lemma_decimal_digits_are_digits(n / 10);
    }
}

/// The decimal representation of a number denotes that number.
pub proof fn lemma_decimal_digits_value(n: nat)
    ensures
        digits_value(spec_decimal_digits(n)) == n,
    decreases n,
{
    let s = spec_decimal_digits(n);
    if n < 10 {
        assert(s.drop_last() =~= Seq::<char>::empty());
        assert(s.last() == spec_digit_char(n as int));
        assert(digit_val(spec_digit_char(n as int)) == n);
        assert(digits_value(Seq::<char>::empty()) == 0);
        assert(digits_value(s) == digits_value(s.drop_last()) * 10 + digit_val(s.last()));
    } else {
        lemma_decimal_digits_value(n / 10);
        assert(s.drop_last() =~= spec_decimal_digits(n / 10));
        assert(s.last() == spec_digit_char((n % 10) as int));
        assert(digit_val(spec_digit_char((n % 10) as int)) == n % 10);
        assert(digits_value(s) == digits_value(s.drop_last()) * 10 + digit_val(s.last()));
        assert(digits_value(s) == (n / 10) * 10 + n % 10);
    }
}

/// Every rendered price has exactly two digits after its decimal point.
pub proof fn lemma_price_two_decimals(cents: u64)
    ensures
        has_two_decimal_places(spec_price_string(cents)),
{
    lemma_decimal_digits_are_digits((cents / 100) as nat);
}

/// The rendered price denotes the price: the digits before the point are
/// the whole currency units, and the two digits after it are the cents
/// below one unit.
pub proof fn lemma_price_string_value(cents: u64)
    ensures
        digits_value(spec_price_string(cents).take(spec_price_string(cents).len() - 3)) * 100
            + digit_val(spec_price_string(cents)[spec_price_string(cents).len() - 2]) * 10
            + digit_val(spec_price_string(cents)[spec_price_string(cents).len() - 1]) == cents,
{
    let s = spec_price_string(cents);
    lemma_decimal_digits_are_digits((cents / 100) as nat);
    lemma_decimal_digits_value((cents / 100) as nat);
    assert(s.take(s.len() - 3) =~= spec_decimal_digits((cents / 100) as nat));
    assert(digit_val(s[s.len() - 2]) == (cents / 10) % 10);
    assert(digit_val(s[s.len() - 1]) == cents % 10);
    assert((cents / 100) * 100 + ((cents / 10) % 10) * 10 + cents % 10 == cents) by {
        assert(cents / 100 * 10 + (cents / 10) % 10 == cents / 10) by {
            assert(cents / 100 == (cents / 10) / 10);
        };
        assert((cents / 10) * 10 + cents % 10 == cents);
    };
}

/// The single-character string for a digit value.
fn digit_str(d: u64) -> (r: &'static str)
    requires
        d < 10,
    ensures
        r@ =~= seq![spec_digit_char(d as int)],
{
    proof {
        reveal_strlit("0");
        reveal_strlit("1");
        reveal_strlit("2");
        reveal_strlit("3");
        reveal_strlit("4");
        reveal_strlit("5");
        reveal_strlit("6");
        reveal_strlit("7");
        reveal_strlit("8");
        reveal_strlit("9");
    }
    if d == 0 {
        "0"
    } else if d == 1 {
        "1"
    } else if d == 2 {
        "2"
    } else if d == 3 {
        "3"
    } else if d == 4 {
        "4"
    } else if d == 5 {
        "5"
    } else if d == 6 {
        "6"
    } else if d == 7 {
        "7"
    } else if d == 8 {
        "8"
    } else {
        "9"
    }
}

/// Appends the decimal representation of `n` to `s`.
fn push_decimal_digits(s: &mut String, n: u64)
    ensures
        final(s)@ == old(s)@ + spec_decimal_digits(n as nat),
    decreases n,
{
    if n >= 10 {
        push_decimal_digits(s, n / 10);
        let d = digit_str(n % 10);
        s.append(d);
        proof {
            assert(final(s)@ =~= old(s)@ + spec_decimal_digits(n as nat));
        }
    } else {
        let d = digit_str(n);
        s.append(d);
    }
}

/// Renders `cents` cents as a decimal price string with exactly two digits
/// after the decimal point.
pub fn price_string(cents: u64) -> (r: String)
    ensures
        r@ == spec_price_string(cents),
{
    let mut s = String::new();
    push_decimal_digits(&mut s, cents / 100);
    proof {
        reveal_strlit(".");
    }
    s.append(".");
    let tens = digit_str((cents / 10) % 10);
    s.append(tens);
    let ones = digit_str(cents % 10);
    s.append(ones);
    proof {
        assert(s@ =~= spec_price_string(cents));
    }
    s
}

} // verus!
