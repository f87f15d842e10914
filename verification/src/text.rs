//! Decimal text for numbers.

use vstd::arithmetic::power::pow;
use vstd::prelude::*;
use vstd::string::StringExecFns;

verus! {

/// The decimal digit of `d`, for `d` below ten.
pub open spec fn digit_char(d: nat) -> char {
    (48 + d) as char
}

/// The decimal digits of `n`, most significant first and without leading zeros.
pub open spec fn decimal_chars(n: nat) -> Seq<char>
    decreases n,
{
    if n < 10 {
        seq![digit_char(n)]
    } else {
        decimal_chars(n / 10).push(digit_char(n % 10))
    }
}

fn digit_text(d: u64) -> (text: &'static str)
    requires
        d < 10,
    ensures
        text@ == seq![digit_char(d as nat)],
{
    proof {
        reveal_strlit("0");
        reveal_strlit("1");
        reveal_strlit("2");
        reveal_strlit("3");
        reveal_strlit("4");
        reveal_strlit("5");
        reveal_strlit("6");
        reveal_strlit("7");
        reveal_strlit("8");
        reveal_strlit("9");
    }
    let text: &'static str = if d == 0 {
        "0"
    } else if d == 1 {
        "1"
    } else if d == 2 {
        "2"
    } else if d == 3 {
        "3"
    } else if d == 4 {
        "4"
    } else if d == 5 {
        "5"
    } else if d == 6 {
        "6"
    } else if d == 7 {
        "7"
    } else if d == 8 {
        "8"
    } else {
        "9"
    };
    assert(text@ =~= seq![digit_char(d as nat)]);
    text
}

/// Writes `n` in decimal.
pub fn decimal(n: u64) -> (text: String)
    ensures
        text@ == decimal_chars(n as nat),
    decreases n,
{
    if n < 10 {
        digit_text(n).to_owned()
    } else {
        let mut text: String = decimal(n / 10);
        text.append(digit_text(n % 10));
        assert(text@ =~= decimal_chars(n as nat));
        text
    }
}

/// Writes `prefix` and then `n` in decimal.
pub fn labelled(prefix: &str, n: u32) -> (text: String)
    ensures
        text@ == prefix@ + decimal_chars(n as nat),
{
    let mut text: String = prefix.to_owned();
    text.append(decimal(n as u64).as_str());
    text
}

proof fn lemma_decimal_nonempty(n: nat)
    ensures
        decimal_chars(n).len() >= 1,
        n >= 10 ==> decimal_chars(n).len() >= 2,
    decreases n,
{
    if n >= 10 {
        lemma_decimal_nonempty(n / 10);
    }
}

/// Different numbers are written differently.
pub proof fn decimal_is_injective(a: nat, b: nat)
    requires
        decimal_chars(a) == decimal_chars(b),
    ensures
        a == b,
    decreases a,
{
    lemma_decimal_nonempty(a);
    lemma_decimal_nonempty(b);
    assert(decimal_chars(a).last() == digit_char(a % 10)) by {
        if a < 10 {
            assert(a % 10 == a);
        }
    }
    assert(decimal_chars(b).last() == digit_char(b % 10)) by {
        if b < 10 {
            assert(b % 10 == b);
        }
    }
    assert(a % 10 == b % 10);
    if a >= 10 {
        assert(b >= 10);
        assert(decimal_chars(a).drop_last() =~= decimal_chars(a / 10));
        assert(decimal_chars(b).drop_last() =~= decimal_chars(b / 10));
        decimal_is_injective(a / 10, b / 10);
    }
}

/// Two labels with the same prefix are the same text only for the same number.
pub proof fn labels_are_distinct(prefix: Seq<char>, a: nat, b: nat)
    requires
        prefix + decimal_chars(a) == prefix + decimal_chars(b),
    ensures
        a == b,
{
    let n = prefix.len() as int;
    let left = prefix + decimal_chars(a);
    let right = prefix + decimal_chars(b);
    assert(left.skip(n) =~= decimal_chars(a));
    assert(right.skip(n) =~= decimal_chars(b));
    decimal_is_injective(a, b);
}

/// A number is written in digits, and one of 32 bits in at most ten.
pub proof fn decimal_is_digits(n: nat)
    ensures
        forall|i: int|
            0 <= i < decimal_chars(n).len() ==> '0' <= #[trigger] decimal_chars(n)[i] <= '9',
        n <= u32::MAX ==> decimal_chars(n).len() <= 10,
    decreases n,
{
    if n >= 10 {
        let rest = decimal_chars(n / 10);
        decimal_is_digits(n / 10);
        assert forall|i: int| 0 <= i < decimal_chars(n).len() implies '0'
            <= #[trigger] decimal_chars(n)[i] <= '9' by {
            if i < rest.len() {
                assert(decimal_chars(n)[i] == rest[i]);
            }
        }
    }
    if n <= u32::MAX {
        assert(pow(10, 10) == 10_000_000_000) by {
            reveal_with_fuel(pow, 11);
        }
        lemma_decimal_len(n, 10);
    }
}

proof fn lemma_decimal_len(n: nat, len: nat)
    requires
        len > 0,
        n < pow(10, len),
    ensures
        decimal_chars(n).len() <= len,
    decreases n,
{
    reveal(pow);
    if n >= 10 {
        assert(pow(10, 0) == 1);
        lemma_decimal_len(n / 10, (len - 1) as nat);
    }
}

/// The number that a row of digits stands for.
pub open spec fn digits_value(digits: Seq<char>) -> nat
    decreases digits.len(),
{
    if digits.len() == 0 {
        0
    } else {
        10 * digits_value(digits.drop_last()) + (digits.last() as nat - 48) as nat
    }
}

/// The digits of a number stand for that number, and do not begin with a needless zero.
pub proof fn decimal_stands_for_the_number(n: nat)
    ensures
        digits_value(decimal_chars(n)) == n,
        decimal_chars(n).len() > 0,
        n > 0 ==> decimal_chars(n)[0] != '0',
    decreases n,
{
    if n < 10 {
        assert(decimal_chars(n).drop_last() =~= Seq::empty());
        assert(digits_value(Seq::empty()) == 0);
    } else {
        decimal_stands_for_the_number(n / 10);
        assert(decimal_chars(n).drop_last() =~= decimal_chars(n / 10));
        assert(decimal_chars(n)[0] == decimal_chars(n / 10)[0]);
    }
}

} // verus!
