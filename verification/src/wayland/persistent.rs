//! Modes as they are written down in a configuration.

use crate::number::{append_signed, digit, signed_decimal};
use crate::wayland::protocols::{resolution_text, OutputMode};
use vstd::arithmetic::div_mod::lemma_fundamental_div_mod_converse;
use vstd::prelude::*;

verus! {

/// The whole hertz of a rate in millihertz, towards zero.
pub open spec fn hertz_part(millihertz: int) -> int {
    if millihertz < 0 {
        -((-millihertz) / 1000)
    } else {
        millihertz / 1000
    }
}

/// Three digits.
pub open spec fn three_digits(n: nat) -> Seq<char> {
    seq![
        digit(n / 100 % 10),
        digit(n / 10 % 10),
        digit(n % 10),
    ]
}

/// `s` without zeros at its end.
pub open spec fn without_zeros(s: Seq<char>) -> Seq<char>
    decreases s.len(),
{
    if s.len() > 0 && s.last() == '0' {
        without_zeros(s.drop_last())
    } else {
        s
    }
}

/// A rate in hertz, with the decimals that it needs.
pub open spec fn rate_text(millihertz: int) -> Seq<char> {
    let whole = signed_decimal(hertz_part(millihertz));
    let rest = (millihertz % 1000) as nat;
    if rest == 0 {
        whole
    } else {
        without_zeros(whole + seq!['.'] + three_digits(rest))
    }
}

/// A mode as it is written down in a configuration.
pub open spec fn persistent_text(mode: OutputMode) -> Seq<char> {
    resolution_text(mode.width as int, mode.height as int) + seq!['@'] + rate_text(
        mode.refresh_mhz as int,
    )
}

fn digit_char(n: i32) -> (c: char)
    requires
        0 <= n < 10,
    ensures
        c == digit(n as nat),
{
    (48 + n as u8) as char
}

/// The whole hertz of a rate, and the millihertz above the multiple of a thousand below it.
fn split_rate(rate: i32) -> (parts: (i32, i32))
    ensures
        parts.0 == hertz_part(rate as int),
        parts.1 == rate as int % 1000,
{
    if rate >= 0 {
        return (rate / 1000, rate % 1000);
    }
    let size: i64 = -(rate as i64);
    let whole: i64 = size / 1000;
    let below: i64 = size % 1000;
    if below == 0 {
        proof {
            lemma_fundamental_div_mod_converse(rate as int, 1000, -(whole as int), 0);
        }
        (-(whole as i32), 0)
    } else {
        proof {
            lemma_fundamental_div_mod_converse(
                rate as int,
                1000,
                -(whole as int) - 1,
                1000 - below as int,
            );
        }
        (-(whole as i32), 1000 - below as i32)
    }
}

/// Three decimals without the zeros at their end.
pub proof fn lemma_three_decimals(front: Seq<char>, rest: nat)
    requires
        0 < rest < 1000,
    ensures
        without_zeros(front + three_digits(rest)) == if rest % 10 != 0 {
            front.push(digit(rest / 100)).push(digit(rest / 10 % 10)).push(digit(rest % 10))
        } else if rest / 10 % 10 != 0 {
            front.push(digit(rest / 100)).push(digit(rest / 10 % 10))
        } else {
            front.push(digit(rest / 100))
        },
{
    let one = front.push(digit(rest / 100));
    let two = one.push(digit(rest / 10 % 10));
    let full = two.push(digit(rest % 10));
    assert(front + three_digits(rest) =~= full);
    assert(full.drop_last() =~= two);
    assert(two.drop_last() =~= one);
    assert(full.last() == digit(rest % 10));
    assert(two.last() == digit(rest / 10 % 10));
    assert(one.last() == digit(rest / 100));
    if rest % 10 != 0 {
        assert(without_zeros(full) == full);
    } else {
        assert(without_zeros(full) == without_zeros(two));
        if rest / 10 % 10 != 0 {
            assert(without_zeros(two) == two);
        } else {
            assert(without_zeros(two) == without_zeros(one));
            assert(rest / 100 != 0);
            assert(without_zeros(one) == one);
        }
    }
}

/// A mode as it is written down in a configuration, such as `2560x1440@143.973`.
pub fn persistent_mode(mode: &OutputMode) -> (text: String)
    ensures
        text@ == persistent_text(*mode),
{
    let (whole, rest): (i32, i32) = split_rate(mode.refresh_mhz);
    let mut text = String::new();
    append_signed(&mut text, mode.width);
    text.push('x');
    append_signed(&mut text, mode.height);
    text.push('@');
    let ghost front = resolution_text(mode.width as int, mode.height as int) + seq!['@'];
    assert(text@ =~= front);
    let number = rate_number(whole, rest);
    text.append(number.as_str());
    text
}

fn rate_number(whole: i32, rest: i32) -> (text: String)
    requires
        0 <= rest < 1000,
    ensures
        text@ == if rest == 0 {
            signed_decimal(whole as int)
        } else {
            without_zeros(signed_decimal(whole as int) + seq!['.'] + three_digits(rest as nat))
        },
{
    let mut text = String::new();
    append_signed(&mut text, whole);
    assert(text@ =~= signed_decimal(whole as int));
    if rest == 0 {
        return text;
    }
    text.push('.');
    proof {
        assert(text@ =~= signed_decimal(whole as int) + seq!['.']);
        lemma_three_decimals(text@, rest as nat);
    }
    text.push(digit_char(rest / 100));
    if rest % 100 != 0 {
        text.push(digit_char(rest / 10 % 10));
    }
    if rest % 10 != 0 {
        text.push(digit_char(rest % 10));
    }
    text
}

} // verus!
