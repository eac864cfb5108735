//! Human-readable descriptions of the library's errors, built without a
//! formatter so that every message is specified character for character.

use vstd::prelude::*;
use vstd::string::StringExecFns;

verus! {

/// The character for a decimal digit.
pub open spec fn digit_char(digit: nat) -> char {
    if digit == 0 {
        '0'
    } else if digit == 1 {
        '1'
    } else if digit == 2 {
        '2'
    } else if digit == 3 {
        '3'
    } else if digit == 4 {
        '4'
    } else if digit == 5 {
        '5'
    } else if digit == 6 {
        '6'
    } else if digit == 7 {
        '7'
    } else if digit == 8 {
        '8'
    } else {
        '9'
    }
}

/// The decimal representation of `n`, most significant digit first, with no
/// leading zeros.
pub open spec fn decimal(n: nat) -> Seq<char>
    decreases n,
{
    if n < 10 {
        seq![digit_char(n)]
    } else {
        decimal(n / 10) + seq![digit_char(n % 10)]
    }
}

/// The number a string of decimal digits spells, most significant first.
pub open spec fn digits_value(text: Seq<char>) -> nat
    decreases text.len(),
{
    if text.len() == 0 {
        0
    } else {
        digits_value(text.drop_last()) * 10 + ((text.last() as int - '0' as int) as nat)
    }
}

/// Reading a decimal representation back gives the number it represents:
/// every character is a digit, there is no leading zero except in `0`
/// itself, and the digits spell `n`.
pub proof fn lemma_decimal_round_trip(n: nat)
    ensures
        decimal(n).len() > 0,
        forall|i: int| 0 <= i < decimal(n).len() ==> '0' <= #[trigger] decimal(n)[i] <= '9',
        decimal(n)[0] == '0' ==> n == 0,
        digits_value(decimal(n)) == n,
    decreases n,
{
    assert('0' as int == 48 && '1' as int == 49 && '2' as int == 50 && '3' as int == 51 && '4' as int
        == 52 && '5' as int == 53 && '6' as int == 54 && '7' as int == 55 && '8' as int == 56
        && '9' as int == 57);
    if n < 10 {
        assert(decimal(n) =~= seq![digit_char(n)]);
        assert(decimal(n).drop_last() =~= Seq::<char>::empty());
        assert(decimal(n)[0] == digit_char(n));
        assert(decimal(n)[0] == '0' ==> n == 0);
        assert(digits_value(Seq::<char>::empty()) == 0);
        assert(digit_char(n) as int == '0' as int + n);
    } else {
        lemma_decimal_round_trip(n / 10);
        let rest = decimal(n / 10);
        assert(decimal(n) == rest + seq![digit_char(n % 10)]);
        assert((rest + seq![digit_char(n % 10)]).drop_last() =~= rest);
        assert(decimal(n)[0] == rest[0]);
        assert(n / 10 > 0);
        assert(decimal(n)[0] == '0' ==> n == 0);
        assert forall|i: int| 0 <= i < decimal(n).len() implies '0' <= #[trigger] decimal(n)[i] <= '9' by {
            if i < rest.len() {
                assert(decimal(n)[i] == rest[i]);
            }
        }
        assert(digit_char(n % 10) as int == '0' as int + n % 10);
        assert(digits_value(decimal(n)) == digits_value(rest) * 10 + (n % 10));
        assert(n == (n / 10) * 10 + n % 10);
    }
}

/// Append the decimal representation of `n` to `text`.
pub fn append_decimal(text: &mut String, n: usize)
    ensures
        final(text)@ == old(text)@ + decimal(n as nat),
    decreases n,
{
    if n >= 10 {
        append_decimal(text, n / 10);
    }
    let digit = n % 10;
    let glyph = if digit == 0 {
        "0"
    } else if digit == 1 {
        "1"
    } else if digit == 2 {
        "2"
    } else if digit == 3 {
        "3"
    } else if digit == 4 {
        "4"
    } else if digit == 5 {
        "5"
    } else if digit == 6 {
        "6"
    } else if digit == 7 {
        "7"
    } else if digit == 8 {
        "8"
    } else {
        "9"
    };
    proof {
        reveal_strlit("0");
        reveal_strlit("1");
        reveal_strlit("2");
        reveal_strlit("3");
        reveal_strlit("4");
        reveal_strlit("5");
        reveal_strlit("6");
        reveal_strlit("7");
        reveal_strlit("8");
        reveal_strlit("9");
    }
    text.append(glyph);
    assert(text@ =~= old(text)@ + decimal(n as nat));
}

} // verus!
