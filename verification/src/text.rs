//! Numbers written out in the detail messages.

use vstd::prelude::*;
use vstd::string::*;

verus! {

/// The character of one digit: `0` to `9`, then `a` to `f`.
pub open spec fn digit_char(digit: nat) -> char {
    if digit < 10 {
        ('0' as nat + digit) as char
    } else {
        ('a' as nat + (digit - 10)) as char
    }
}

/// `n` written in `base`, most significant digit first and without
/// leading zeros.
pub open spec fn digits(n: nat, base: nat) -> Seq<char>
    decreases n,
{
    if n < base || base < 2 {
        seq![digit_char(n)]
    } else {
        proof {
            assert(n / base < n) by (nonlinear_arith)
                requires
                    2 <= base <= n,
            ;
        }
        digits(n / base, base).push(digit_char(n % base))
    }
}

/// `n` in decimal.
pub open spec fn decimal(n: nat) -> Seq<char> {
    digits(n, 10)
}

/// `n` in lower-case hexadecimal, behind `0x`.
pub open spec fn hex(n: nat) -> Seq<char> {
    seq!['0', 'x'] + digits(n, 16)
}

/// The text of a single digit.
fn digit_text(digit: u64) -> (text: &'static str)
    requires
        digit < 16,
    ensures
        text@ == seq![digit_char(digit as nat)],
{
    proof {
        reveal_strlit("0");
        reveal_strlit("1");
        reveal_strlit("2");
        reveal_strlit("3");
        reveal_strlit("4");
        reveal_strlit("5");
        reveal_strlit("6");
        reveal_strlit("7");
        reveal_strlit("8");
        reveal_strlit("9");
        reveal_strlit("a");
        reveal_strlit("b");
        reveal_strlit("c");
        reveal_strlit("d");
        reveal_strlit("e");
        reveal_strlit("f");
    }
    match digit {
        0 => "0",
        1 => "1",
        2 => "2",
        3 => "3",
        4 => "4",
        5 => "5",
        6 => "6",
        7 => "7",
        8 => "8",
        9 => "9",
        10 => "a",
        11 => "b",
        12 => "c",
        13 => "d",
        14 => "e",
        _ => "f",
    }
}

/// Write `n` out in `base`.
fn digits_text(n: u64, base: u64) -> (text: String)
    requires
        2 <= base <= 16,
    ensures
        text@ == digits(n as nat, base as nat),
    decreases n,
{
    if n < base {
        digit_text(n).to_owned()
    } else {
        proof {
            assert(n / base < n) by (nonlinear_arith)
                requires
                    2 <= base <= n,
            ;
            assert(n % base < base) by (nonlinear_arith)
                requires
                    2 <= base,
            ;
        }
        let mut text = digits_text(n / base, base);
        text.append(digit_text(n % base));
        assert(text@ =~= digits(n as nat, base as nat));
        text
    }
}

/// Write `n` out in decimal.
pub fn decimal_text(n: u64) -> (text: String)
    ensures
        text@ == decimal(n as nat),
{
    digits_text(n, 10)
}

/// Write `n` out in hexadecimal, behind `0x`.
pub fn hex_text(n: u64) -> (text: String)
    ensures
        text@ == hex(n as nat),
{
    proof {
        reveal_strlit("0x");
    }
    let mut text = "0x".to_owned();
    text.append(digits_text(n, 16).as_str());
    assert(text@ =~= hex(n as nat));
    text
}

// ---------------------------------------------------------------------
// Laws.
// ---------------------------------------------------------------------

/// The value of a digit's character.
pub open spec fn digit_value(c: char) -> int {
    if '0' <= c <= '9' {
        c as int - '0' as int
    } else {
        c as int - 'a' as int + 10
    }
}

/// The number that a text of digits in `base` stands for.
pub open spec fn number(text: Seq<char>, base: int) -> int
    decreases text.len(),
{
    if text.len() == 0 {
        0
    } else {
        number(text.drop_last(), base) * base + digit_value(text.last())
    }
}

/// A number that was written out reads back as that number: in digits below
/// its base, and without a leading zero unless it is the one digit there is.
pub proof fn law_digits_read_back(n: nat, base: nat)
    requires
        2 <= base <= 16,
    ensures
        number(digits(n, base), base as int) == n,
        digits(n, base).len() >= 1,
        n > 0 ==> digits(n, base)[0] != '0',
        n == 0 ==> digits(n, base) == seq!['0'],
        forall|i: int|
            0 <= i < digits(n, base).len() ==> {
                let c = #[trigger] digits(n, base)[i];
                ('0' <= c <= '9' || 'a' <= c <= 'f') && digit_value(c) < base
            },
    decreases n,
{
    let text = digits(n, base);
    if n < base {
        let none = Seq::<char>::empty();
        assert(text.drop_last() =~= none);
        assert(number(none, base as int) == 0);
        assert(number(text, base as int) == 0 * (base as int) + digit_value(digit_char(n)));
    } else {
        assert(0 < n / base < n && n % base < base && n == (n / base) * base + n % base)
            by (nonlinear_arith)
            requires
                2 <= base <= n,
        ;
        law_digits_read_back(n / base, base);
        let front = digits(n / base, base);
        assert(text.drop_last() =~= front);
        assert(text.last() == digit_char(n % base));
    }
}

/// Decimal and hexadecimal texts read back as the number they were made
/// from, so different numbers have different texts.
pub proof fn law_numbers_read_back(n: nat, other: nat)
    ensures
        number(decimal(n), 10) == n,
        hex(n).len() > 2,
        hex(n)[0] == '0',
        hex(n)[1] == 'x',
        number(hex(n).skip(2), 16) == n,
        decimal(n) == decimal(other) ==> n == other,
        hex(n) == hex(other) ==> n == other,
{
    law_digits_read_back(n, 10);
    law_digits_read_back(n, 16);
    law_digits_read_back(other, 10);
    law_digits_read_back(other, 16);
    assert(hex(n).skip(2) =~= digits(n, 16));
    assert(hex(other).skip(2) =~= digits(other, 16));
}

} // verus!
