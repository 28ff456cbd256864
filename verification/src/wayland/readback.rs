//! What is written down of a mode is understood as that mode again.

use crate::config::{mode_reading, read_mode, ModeError, ModeReading};
use crate::ipc::mode_id_text;
use crate::natural::ten_to;
use crate::number::{
    all_digits, decimal, decimal_reads_back, digit, digit_value, digits_value, is_digit,
    signed_decimal, signed_decimal_reads_back,
};
use crate::rate::{
    decimal_rates_survive, negative, rate_in_millihertz, read_float, rounded_millihertz, spells,
    FloatText,
};
use crate::text::{after, before, nothing_splits_without_the_mark, splitting_undoes_joining};
use crate::wayland::output::{
    best_mode, has_size, read_mode_text, the_best_mode_is_offered, ModeTextError,
};
use crate::wayland::persistent::{
    hertz_part, lemma_three_decimals, persistent_text, rate_text, three_digits,
};
use crate::wayland::protocols::{resolution_text, same_picture, OutputMode};
use vstd::prelude::*;

verus! {

proof fn lemma_digits_hold_no_mark(s: Seq<char>, c: char)
    requires
        all_digits(s),
        !is_digit(c),
    ensures
        !s.contains(c),
{
    if s.contains(c) {
        let k = choose|k: int| 0 <= k < s.len() && s[k] == c;
        assert(is_digit(s[k]));
    }
}

/// A number of digits, and digits behind a point, read as the number they write.
proof fn lemma_point_number_reads(whole: Seq<char>, fraction: Seq<char>)
    requires
        whole.len() > 0,
        all_digits(whole),
        all_digits(fraction),
    ensures
        read_float(whole) == Some(
            FloatText::Finite { negative: false, digits: digits_value(whole), exponent: 0 },
        ),
        read_float(whole + seq!['.'] + fraction) == Some(
            FloatText::Finite {
                negative: false,
                digits: digits_value(whole + fraction),
                exponent: -(fraction.len() as int),
            },
        ),
        !(whole + seq!['.'] + fraction).contains('@'),
        !whole.contains('@'),
{
    let s = whole + seq!['.'] + fraction;
    assert(is_digit(whole[0]));
    assert(s[0] == whole[0]);
    lemma_digits_hold_no_mark(whole, '.');
    lemma_digits_hold_no_mark(whole, '@');
    lemma_digits_hold_no_mark(whole, 'e');
    lemma_digits_hold_no_mark(whole, 'E');
    lemma_digits_hold_no_mark(fraction, '@');
    lemma_digits_hold_no_mark(fraction, 'e');
    lemma_digits_hold_no_mark(fraction, 'E');
    assert forall|c: char| s.contains(c) implies whole.contains(c) || c == '.' || fraction.contains(
        c,
    ) by {
        let k = choose|k: int| 0 <= k < s.len() && s[k] == c;
        if k < whole.len() {
            assert(whole[k] == c);
        } else if k > whole.len() {
            assert(fraction[k - whole.len() - 1] == c);
        }
    }
    nothing_splits_without_the_mark(s, 'e');
    nothing_splits_without_the_mark(s, 'E');
    nothing_splits_without_the_mark(whole, 'e');
    nothing_splits_without_the_mark(whole, 'E');
    nothing_splits_without_the_mark(whole, '.');
    splitting_undoes_joining(whole, '.', fraction);
    assert(s.take(s.len() as int) =~= s);
    assert(whole.take(whole.len() as int) =~= whole);
    assert(whole + Seq::<char>::empty() =~= whole);
    assert(all_digits(Seq::<char>::empty()));
    assert(!spells(s, seq!['i', 'n', 'f']));
    assert(!spells(s, seq!['i', 'n', 'f', 'i', 'n', 'i', 't', 'y']));
    assert(!spells(s, seq!['n', 'a', 'n']));
    assert(!spells(whole, seq!['i', 'n', 'f']));
    assert(!spells(whole, seq!['i', 'n', 'f', 'i', 'n', 'i', 't', 'y']));
    assert(!spells(whole, seq!['n', 'a', 'n']));
}

proof fn lemma_value_of_more(s: Seq<char>, c: char)
    ensures
        digits_value(s.push(c)) == 10 * digits_value(s) + digit_value(c),
{
    assert(s.push(c).drop_last() =~= s);
}

/// A rate as it is written down reads as a decimal number of that value.
proof fn lemma_rate_text_reads(millihertz: nat)
    requires
        millihertz >= 1,
    ensures
        !rate_text(millihertz as int).contains('@'),
        exists|digits: nat, places: nat|
            places <= 3 && digits * 1000 == millihertz * ten_to(places) && #[trigger] read_as(
                rate_text(millihertz as int),
                digits,
                places,
            ),
{
    let w = millihertz / 1000;
    let r = millihertz % 1000;
    let whole = decimal(w);
    decimal_reads_back(w);
    reveal_with_fuel(ten_to, 4);
    assert(hertz_part(millihertz as int) == w);
    assert(signed_decimal(w as int) == whole);
    if r == 0 {
        lemma_point_number_reads(whole, Seq::empty());
        assert(read_as(rate_text(millihertz as int), w, 0));
        assert(ten_to(0) == 1);
        assert(millihertz * ten_to(0) == millihertz) by (nonlinear_arith)
            requires
                ten_to(0) == 1,
        ;
    } else {
        let front = whole + seq!['.'];
        assert(whole + seq!['.'] + three_digits(r) == front + three_digits(r));
        lemma_three_decimals(front, r);
        let (a, b, c) = (digit(r / 100), digit(r / 10 % 10), digit(r % 10));
        assert(digit_value(a) == r / 100 && digit_value(b) == r / 10 % 10 && digit_value(c) == r
            % 10);
        assert(is_digit(a) && is_digit(b) && is_digit(c));
        lemma_value_of_more(whole, a);
        lemma_value_of_more(whole.push(a), b);
        lemma_value_of_more(whole.push(a).push(b), c);
        assert(r == 100 * (r / 100) + 10 * (r / 10 % 10) + r % 10);
        assert(millihertz == 1000 * w + r);
        if r % 10 != 0 {
            let fraction = seq![a, b, c];
            lemma_point_number_reads(whole, fraction);
            assert(front.push(a).push(b).push(c) =~= whole + seq!['.'] + fraction);
            assert(whole + fraction =~= whole.push(a).push(b).push(c));
            assert(read_as(rate_text(millihertz as int), digits_value(whole + fraction), 3));
            assert(ten_to(3) == 1000);
        } else if r / 10 % 10 != 0 {
            let fraction = seq![a, b];
            lemma_point_number_reads(whole, fraction);
            assert(front.push(a).push(b) =~= whole + seq!['.'] + fraction);
            assert(whole + fraction =~= whole.push(a).push(b));
            assert(read_as(rate_text(millihertz as int), digits_value(whole + fraction), 2));
            assert(ten_to(2) == 100);
        } else {
            let fraction = seq![a];
            lemma_point_number_reads(whole, fraction);
            assert(front.push(a) =~= whole + seq!['.'] + fraction);
            assert(whole + fraction =~= whole.push(a));
            assert(read_as(rate_text(millihertz as int), digits_value(whole + fraction), 1));
            assert(ten_to(1) == 10);
        }
    }
}

/// `text` reads as the digits, the last `places` of them behind the point.
spec fn read_as(text: Seq<char>, digits: nat, places: nat) -> bool {
    read_float(text) == Some(
        FloatText::Finite { negative: false, digits, exponent: -(places as int) },
    )
}

/// A rate as it is written down is understood as that rate, when a configuration is checked and when a
/// mode is looked for.
pub proof fn written_rates_are_understood(millihertz: nat)
    requires
        1 <= millihertz <= i32::MAX,
    ensures
        rate_in_millihertz(rate_text(millihertz as int)) == Some(millihertz),
        rounded_millihertz(rate_text(millihertz as int)) == Some(millihertz as int),
        !rate_text(millihertz as int).contains('@'),
{
    lemma_rate_text_reads(millihertz);
    let (digits, places) = choose|digits: nat, places: nat|
        places <= 3 && digits * 1000 == millihertz * ten_to(places) && #[trigger] read_as(
            rate_text(millihertz as int),
            digits,
            places,
        );
    decimal_rates_survive(digits, places, millihertz);
}

proof fn lemma_resolution_splits(width: nat, height: nat)
    ensures
        !resolution_text(width as int, height as int).contains('@'),
        before(resolution_text(width as int, height as int), 'x') == decimal(width),
        after(resolution_text(width as int, height as int), 'x') == Some(decimal(height)),
        !decimal(height).contains('x'),
{
    decimal_reads_back(width);
    decimal_reads_back(height);
    lemma_digits_hold_no_mark(decimal(width), 'x');
    lemma_digits_hold_no_mark(decimal(height), 'x');
    lemma_digits_hold_no_mark(decimal(width), '@');
    lemma_digits_hold_no_mark(decimal(height), '@');
    splitting_undoes_joining(decimal(width), 'x', decimal(height));
    let s = resolution_text(width as int, height as int);
    if s.contains('@') {
        let k = choose|k: int| 0 <= k < s.len() && s[k] == '@';
        if k < decimal(width).len() {
            assert(decimal(width)[k] == '@');
        } else if k > decimal(width).len() {
            assert(decimal(height)[k - decimal(width).len() - 1] == '@');
        }
    }
}

/// A mode as it is written down is valid in a configuration and says its own width, height and rate.
pub proof fn a_written_mode_is_read_back(mode: OutputMode)
    requires
        mode.width > 0,
        mode.height > 0,
        mode.refresh_mhz > 0,
    ensures
        read_mode(persistent_text(mode)) == Ok::<ModeReading, ModeError>(
            mode_reading(mode.width as u32, mode.height as u32, Some(mode.refresh_mhz as u32)),
        ),
{
    let (w, h, r) = (mode.width as nat, mode.height as nat, mode.refresh_mhz as nat);
    let size = resolution_text(w as int, h as int);
    lemma_resolution_splits(w, h);
    written_rates_are_understood(r);
    lemma_rate_text_reads(r);
    splitting_undoes_joining(size, '@', rate_text(r as int));
    decimal_reads_back(w);
    decimal_reads_back(h);
    assert(is_digit(decimal(w)[0]));
    assert(is_digit(decimal(h)[0]));
}

/// Looking for a mode by what was written down of it asks for its own size and rate.
pub proof fn a_written_mode_is_asked_for(mode: OutputMode)
    requires
        mode.width > 0,
        mode.height > 0,
        mode.refresh_mhz > 0,
    ensures
        read_mode_text(persistent_text(mode)) == Ok::<(int, int, Option<int>), ModeTextError>(
            (mode.width as int, mode.height as int, Some(mode.refresh_mhz as int)),
        ),
{
    let (w, h, r) = (mode.width as nat, mode.height as nat, mode.refresh_mhz as nat);
    let size = resolution_text(w as int, h as int);
    lemma_resolution_splits(w, h);
    written_rates_are_understood(r);
    splitting_undoes_joining(size, '@', rate_text(r as int));
    nothing_splits_without_the_mark(rate_text(r as int), '@');
    signed_decimal_reads_back(w as int);
    signed_decimal_reads_back(h as int);
}

/// An offered mode is found again by what was written down of it.
pub proof fn a_written_mode_is_found_again(modes: Seq<OutputMode>, mode: OutputMode)
    requires
        modes.contains(mode),
        mode.width > 0,
        mode.height > 0,
        mode.refresh_mhz > 0,
    ensures
        best_mode(modes, persistent_text(mode)) matches Some(found) && same_picture(found, mode),
{
    let (w, h) = (mode.width as int, mode.height as int);
    a_written_mode_is_asked_for(mode);
    the_best_mode_is_offered(modes, persistent_text(mode));
    let k = choose|k: int| 0 <= k < modes.len() && modes[k] == mode;
    assert(has_size(modes[k], w, h));
}

/// A size is written and read width first, with an `x` between: without a rate it reads as that size, and
/// both a mode that is written down and the identifier of a mode begin with it.
pub proof fn a_size_is_width_by_height(mode: OutputMode)
    requires
        mode.width > 0,
        mode.height > 0,
    ensures
        ({
            let (w, h) = (mode.width as nat, mode.height as nat);
            let size = decimal(w) + "x"@ + decimal(h);
            &&& read_mode(size) == Ok::<ModeReading, ModeError>(
                ModeReading { width: w, height: h, refresh: None },
            )
            &&& read_mode_text(size) == Ok::<(int, int, Option<int>), ModeTextError>(
                (w as int, h as int, None),
            )
            &&& persistent_text(mode).take(size.len() as int + 1) == size + "@"@
            &&& mode_id_text(mode).take(size.len() as int + 1) == size + "@"@
        }),
{
    reveal_strlit("x");
    reveal_strlit("@");
    let (w, h) = (mode.width as nat, mode.height as nat);
    let size = resolution_text(w as int, h as int);
    assert("x"@ =~= seq!['x']);
    assert("@"@ =~= seq!['@']);
    lemma_resolution_splits(w, h);
    nothing_splits_without_the_mark(size, '@');
    decimal_reads_back(w);
    decimal_reads_back(h);
    assert(is_digit(decimal(w)[0]));
    assert(is_digit(decimal(h)[0]));
    signed_decimal_reads_back(w as int);
    signed_decimal_reads_back(h as int);
    assert(persistent_text(mode).take(size.len() as int + 1) =~= size + seq!['@']);
    assert(mode_id_text(mode).take(size.len() as int + 1) =~= size + seq!['@']);
}

} // verus!
