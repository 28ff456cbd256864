//! Refresh rates in decimal notation, read the way a double-precision number is read.

use crate::double::{
    lemma_ten_to_pos, magnitude, magnitude_is_increasing, magnitude_of, one, reaches, rounded,
    rounding_is_unique, rounds_to, round_to_double, the_nearest_double_is_near, INFINITY,
};
use crate::natural::{ten_to, Natural};
use crate::number::{all_digits, digits_value, is_digit, lemma_digits_value_grows};
use crate::text::{after, before, find_char, first_at, slice_of, split_once};
use vstd::arithmetic::power2::{
    lemma2_to64, lemma_pow2_adds, lemma_pow2_pos, lemma_pow2_strictly_increases, lemma_pow2_unfold,
    pow2,
};
use vstd::prelude::*;

verus! {

/// What the text of a floating-point number says: `digits` times ten to the power of `exponent`,
/// or one of the two special values.
pub enum FloatText {
    Nan,
    Infinite { negative: bool },
    Finite { negative: bool, digits: nat, exponent: int },
}

/// `c` in lower case, if it is an ASCII letter.
pub open spec fn lowered(c: char) -> char {
    if 'A' <= c <= 'Z' {
        (c as int + 32) as char
    } else {
        c
    }
}

/// Whether `s` spells `word` in upper or lower case.
pub open spec fn spells(s: Seq<char>, word: Seq<char>) -> bool {
    s.len() == word.len() && forall|i: int|
        0 <= i < s.len() ==> lowered(#[trigger] s[i]) == word[i]
}

/// `s` without its sign.
pub open spec fn unsigned(s: Seq<char>) -> Seq<char> {
    if s.len() > 0 && (s[0] == '+' || s[0] == '-') {
        s.skip(1)
    } else {
        s
    }
}

/// Whether `s` begins with a minus sign.
pub open spec fn negative(s: Seq<char>) -> bool {
    s.len() > 0 && s[0] == '-'
}

/// The exponent that `s` writes: digits behind an optional sign.
pub open spec fn read_exponent(s: Seq<char>) -> Option<int> {
    let body = unsigned(s);
    if body.len() > 0 && all_digits(body) {
        Some(
            if negative(s) {
                -digits_value(body)
            } else {
                digits_value(body) as int
            },
        )
    } else {
        None
    }
}

/// Where the exponent mark of `s` stands; the length of `s` if it has none.
pub open spec fn exponent_mark(s: Seq<char>) -> nat {
    if first_at(s, 'e') < first_at(s, 'E') {
        first_at(s, 'e')
    } else {
        first_at(s, 'E')
    }
}

/// The digits behind the decimal point of `s`.
pub open spec fn fraction_of(s: Seq<char>) -> Seq<char> {
    match after(s, '.') {
        Some(fraction) => fraction,
        None => Seq::empty(),
    }
}

/// The digits and the power of ten of an unsigned number: digits with at most one decimal point
/// among them, and an optional exponent.
pub open spec fn read_number(s: Seq<char>) -> Option<(nat, int)> {
    let mark = exponent_mark(s) as int;
    let mantissa = s.take(mark);
    let whole = before(mantissa, '.');
    let fraction = fraction_of(mantissa);
    let exponent = if mark < s.len() {
        read_exponent(s.skip(mark + 1))
    } else {
        Some(0)
    };
    if whole.len() + fraction.len() > 0 && all_digits(whole) && all_digits(fraction)
        && exponent is Some {
        Some((digits_value(whole + fraction), exponent->0 - fraction.len()))
    } else {
        None
    }
}

/// What `s` says as a floating-point number, if it is one.
pub open spec fn read_float(s: Seq<char>) -> Option<FloatText> {
    let body = unsigned(s);
    if spells(body, seq!['i', 'n', 'f']) || spells(
        body,
        seq!['i', 'n', 'f', 'i', 'n', 'i', 't', 'y'],
    ) {
        Some(FloatText::Infinite { negative: negative(s) })
    } else if spells(body, seq!['n', 'a', 'n']) {
        Some(FloatText::Nan)
    } else {
        match read_number(body) {
            Some((digits, exponent)) => Some(
                FloatText::Finite { negative: negative(s), digits, exponent },
            ),
            None => None,
        }
    }
}

/// The double nearest to `digits` times ten to the power of `exponent`.
pub open spec fn decimal_double(digits: nat, exponent: int) -> nat {
    if exponent >= 0 {
        rounded(digits * ten_to(exponent as nat) * one(), ten_to(0))
    } else {
        rounded(digits * one(), ten_to((-exponent) as nat))
    }
}

/// The double nearest to a thousand times a double: hertz in millihertz.
pub open spec fn thousandfold(bits: nat) -> nat {
    rounded(1000 * magnitude(bits), ten_to(0))
}

/// The largest number that a refresh rate may have, in millihertz.
pub open spec fn rate_limit() -> nat {
    0xffff_ffff * one()
}

/// The rate that `s` writes in hertz, in whole millihertz, halves rounded up. It is owed exactly
/// for positive finite rates of at most `u32::MAX` millihertz.
pub open spec fn rate_in_millihertz(s: Seq<char>) -> Option<nat> {
    match read_float(s) {
        Some(FloatText::Finite { negative: false, digits, exponent }) => {
            let rate = decimal_double(digits, exponent);
            let product = thousandfold(rate);
            if 0 < rate < INFINITY && magnitude(product) <= rate_limit() {
                Some((2 * magnitude(product) + one()) / (2 * one()))
            } else {
                None
            }
        },
        _ => None,
    }
}

/// The rate that `s` writes in hertz, in whole millihertz, halves rounded away from zero, at most the
/// limits of `i32`; zero if it says that it is no number.
pub open spec fn rounded_millihertz(s: Seq<char>) -> Option<int> {
    match read_float(s) {
        Some(FloatText::Nan) => Some(0),
        Some(FloatText::Infinite { negative }) => Some(
            if negative {
                i32::MIN as int
            } else {
                i32::MAX as int
            },
        ),
        Some(FloatText::Finite { negative, digits, exponent }) => {
            let product = magnitude(thousandfold(decimal_double(digits, exponent)));
            let whole = (2 * product + one()) / (2 * one());
            Some(
                if negative {
                    if whole < 0x8000_0000 {
                        -(whole as int)
                    } else {
                        i32::MIN as int
                    }
                } else {
                    if whole < 0x7fff_ffff {
                        whole as int
                    } else {
                        i32::MAX as int
                    }
                },
            )
        },
        None => None,
    }
}

/// The text of a floating-point number, taken apart. The exponent stands for every larger one,
/// of either sign, where it is at the limit.
enum ParsedFloat {
    Nan,
    Infinite { negative: bool },
    Finite { negative: bool, digits: Vec<char>, exponent: i128 },
}

/// The largest exponent that is told apart from larger ones.
const EXPONENT_LIMIT: i128 = 0x10_0000_0000_0000_0000_0000_0000;

spec fn clamped(stored: int, exact: int) -> bool {
    ||| stored == exact
    ||| stored == EXPONENT_LIMIT && exact >= EXPONENT_LIMIT
    ||| stored == -EXPONENT_LIMIT && exact <= -EXPONENT_LIMIT
}

/// `clamped` after a count of digits behind the decimal point was taken off.
spec fn near(stored: int, exact: int) -> bool {
    ||| stored == exact
    ||| stored >= 0x1000 && exact >= 0x1000
    ||| stored <= -0x8_0000_0000_0000_0000_0000_0000 && exact
        <= -0x8_0000_0000_0000_0000_0000_0000
}

fn lower_char(c: char) -> (lower: char)
    ensures
        lower == lowered(c),
{
    if 'A' <= c && c <= 'Z' {
        (c as u8 + 32) as char
    } else {
        c
    }
}

pub(crate) fn spells_word(chars: &Vec<char>, word: &Vec<char>) -> (r: bool)
    ensures
        r == spells(chars@, word@),
{
    if chars.len() != word.len() {
        return false;
    }
    for i in 0..chars.len()
        invariant
            chars.len() == word.len(),
            forall|j: int| 0 <= j < i ==> lowered(#[trigger] chars@[j]) == word@[j],
    {
        if lower_char(chars[i]) != word[i] {
            return false;
        }
    }
    true
}

fn are_digits(chars: &Vec<char>) -> (r: bool)
    ensures
        r == all_digits(chars@),
{
    for i in 0..chars.len()
        invariant
            forall|j: int| 0 <= j < i ==> is_digit(#[trigger] chars@[j]),
    {
        if !('0' <= chars[i] && chars[i] <= '9') {
            return false;
        }
    }
    true
}

fn without_sign(chars: &Vec<char>) -> (body: Vec<char>)
    ensures
        body@ == unsigned(chars@),
{
    let from: usize = if chars.len() > 0 && (chars[0] == '+' || chars[0] == '-') {
        1
    } else {
        0
    };
    let body = slice_of(chars, from, chars.len());
    assert(body@ =~= unsigned(chars@));
    body
}

/// The value of the digits of `chars`, or the limit if they write a larger one.
fn capped_value(chars: &Vec<char>) -> (value: i128)
    requires
        all_digits(chars@),
    ensures
        0 <= value <= EXPONENT_LIMIT,
        value == digits_value(chars@) || (value == EXPONENT_LIMIT && digits_value(chars@)
            >= EXPONENT_LIMIT),
{
    let mut value: i128 = 0;
    assert(chars@.take(0) =~= Seq::<char>::empty());
    for i in 0..chars.len()
        invariant
            all_digits(chars@),
            0 <= value < EXPONENT_LIMIT,
            value == digits_value(chars@.take(i as int)),
    {
        proof {
            assert(chars@.take(i + 1).drop_last() =~= chars@.take(i as int));
            assert(is_digit(chars@[i as int]));
        }
        let d: i128 = (chars[i] as u32 - '0' as u32) as i128;
        value = value * 10 + d;
        assert(value == digits_value(chars@.take(i + 1)));
        if value >= EXPONENT_LIMIT {
            proof {
                lemma_digits_value_grows(chars@, i + 1);
            }
            return EXPONENT_LIMIT;
        }
    }
    assert(chars@.take(chars@.len() as int) =~= chars@);
    value
}

fn parse_exponent(chars: &Vec<char>) -> (r: Option<i128>)
    ensures
        r is Some <==> read_exponent(chars@) is Some,
        r is Some ==> clamped(r->0 as int, read_exponent(chars@)->0) && -EXPONENT_LIMIT <= r->0
            <= EXPONENT_LIMIT,
{
    let body = without_sign(chars);
    if body.len() == 0 || !are_digits(&body) {
        return None;
    }
    let value = capped_value(&body);
    if chars.len() > 0 && chars[0] == '-' {
        Some(-value)
    } else {
        Some(value)
    }
}

fn parse_number(chars: &Vec<char>) -> (r: Option<(Vec<char>, i128)>)
    ensures
        r is Some <==> read_number(chars@) is Some,
        r matches Some((digits, exponent)) ==> {
            let (n, e) = read_number(chars@)->0;
            &&& digits.len() > 0
            &&& all_digits(digits@)
            &&& digits_value(digits@) == n
            &&& near(exponent as int, e)
            &&& -0x20_0000_0000_0000_0000_0000_0000 <= exponent
                <= 0x20_0000_0000_0000_0000_0000_0000
        },
{
    let small = find_char(chars, 'e');
    let large = find_char(chars, 'E');
    let mark: usize = if small < large {
        small
    } else {
        large
    };
    let mantissa = slice_of(chars, 0, mark);
    assert(mantissa@ =~= chars@.take(mark as int));
    let exponent: i128 = if mark < chars.len() {
        let tail = slice_of(chars, mark + 1, chars.len());
        assert(tail@ =~= chars@.skip(mark + 1));
        match parse_exponent(&tail) {
            Some(exponent) => exponent,
            None => {
                return None;
            },
        }
    } else {
        0
    };
    let (whole, rest) = split_once(&mantissa, '.');
    let fraction: Vec<char> = match rest {
        Some(fraction) => fraction,
        None => Vec::new(),
    };
    assert(fraction@ =~= fraction_of(mantissa@));
    if (whole.len() == 0 && fraction.len() == 0) || !are_digits(&whole) || !are_digits(&fraction) {
        return None;
    }
    let mut digits: Vec<char> = Vec::new();
    for i in 0..whole.len()
        invariant
            digits@ =~= whole@.take(i as int),
    {
        digits.push(whole[i]);
    }
    for i in 0..fraction.len()
        invariant
            digits@ =~= whole@ + fraction@.take(i as int),
    {
        digits.push(fraction[i]);
    }
    assert(digits@ =~= whole@ + fraction@);
    assert(all_digits(digits@)) by {
        assert forall|i: int| 0 <= i < digits@.len() implies is_digit(#[trigger] digits@[i]) by {
            if i < whole@.len() {
                assert(digits@[i] == whole@[i]);
            } else {
                assert(digits@[i] == fraction@[i - whole@.len()]);
            }
        }
    }
    Some((digits, exponent - fraction.len() as i128))
}

spec fn same_number(parsed: ParsedFloat, exact: FloatText) -> bool {
    match (parsed, exact) {
        (ParsedFloat::Nan, FloatText::Nan) => true,
        (ParsedFloat::Infinite { negative: a }, FloatText::Infinite { negative: b }) => a == b,
        (
            ParsedFloat::Finite { negative: a, digits, exponent },
            FloatText::Finite { negative: b, digits: n, exponent: e },
        ) => {
            &&& a == b
            &&& digits.len() > 0
            &&& all_digits(digits@)
            &&& digits_value(digits@) == n
            &&& near(exponent as int, e)
            &&& -0x20_0000_0000_0000_0000_0000_0000 <= exponent
                <= 0x20_0000_0000_0000_0000_0000_0000
        },
        _ => false,
    }
}

fn parse_float(chars: &Vec<char>) -> (r: Option<ParsedFloat>)
    ensures
        r is Some <==> read_float(chars@) is Some,
        r is Some ==> same_number(r->0, read_float(chars@)->0),
{
    let minus: bool = chars.len() > 0 && chars[0] == '-';
    let body = without_sign(chars);
    let inf: Vec<char> = vec!['i', 'n', 'f'];
    let infinity: Vec<char> = vec!['i', 'n', 'f', 'i', 'n', 'i', 't', 'y'];
    let nan: Vec<char> = vec!['n', 'a', 'n'];
    proof {
        assert(inf@ =~= seq!['i', 'n', 'f']);
        assert(infinity@ =~= seq!['i', 'n', 'f', 'i', 'n', 'i', 't', 'y']);
        assert(nan@ =~= seq!['n', 'a', 'n']);
    }
    if spells_word(&body, &inf) || spells_word(&body, &infinity) {
        return Some(ParsedFloat::Infinite { negative: minus });
    }
    if spells_word(&body, &nan) {
        return Some(ParsedFloat::Nan);
    }
    match parse_number(&body) {
        Some((digits, exponent)) => Some(ParsedFloat::Finite { negative: minus, digits, exponent }),
        None => None,
    }
}

proof fn lemma_ten_exceeds_eight(k: nat)
    ensures
        ten_to(k) >= pow2(3 * k),
    decreases k,
{
    lemma2_to64();
    if k > 0 {
        lemma_ten_exceeds_eight((k - 1) as nat);
        lemma_pow2_adds(3, (3 * (k - 1)) as nat);
        let t = ten_to((k - 1) as nat);
        let p = pow2((3 * (k - 1)) as nat);
        assert(10 * t >= 8 * p);
    }
}

proof fn lemma_ten_adds(a: nat, b: nat)
    ensures
        ten_to(a + b) == ten_to(a) * ten_to(b),
    decreases a,
{
    if a == 0 {
        assert(1 * ten_to(b) == ten_to(b));
    } else {
        lemma_ten_adds((a - 1) as nat, b);
        let x = ten_to((a - 1) as nat);
        let y = ten_to(b);
        assert(10 * (x * y) == (10 * x) * y) by (nonlinear_arith);
    }
}

proof fn lemma_digits_bound(s: Seq<char>)
    requires
        all_digits(s),
    ensures
        digits_value(s) < ten_to(s.len()),
    decreases s.len(),
{
    if s.len() > 0 {
        assert forall|i: int| 0 <= i < s.drop_last().len() implies is_digit(
            #[trigger] s.drop_last()[i],
        ) by {
            assert(s.drop_last()[i] == s[i]);
        }
        lemma_digits_bound(s.drop_last());
        assert(is_digit(s.last()));
    }
}

/// Zero is the double nearest to zero.
proof fn lemma_zero(divisor: nat)
    requires
        divisor > 0,
    ensures
        rounded(0, divisor) == 0,
{
    let m = crate::double::midpoint_twice(1);
    magnitude_is_increasing(0, 1);
    assert(m * divisor > 0) by (nonlinear_arith)
        requires
            m > 0,
            divisor > 0,
    ;
    assert(rounds_to(0, divisor, 0));
    rounding_is_unique(0, divisor, 0, rounded(0, divisor));
}

/// A number far below the smallest double rounds to zero.
proof fn lemma_tiny(digits: nat, count: nat, exponent: int)
    requires
        digits < ten_to(count),
        exponent + count < -400,
    ensures
        decimal_double(digits, exponent) == 0,
{
    let places = (-exponent) as nat;
    let spare = (places - count) as nat;
    let divisor = ten_to(places);
    lemma_ten_adds(count, spare);
    lemma_ten_exceeds_eight(spare);
    lemma_ten_to_pos(places);
    lemma_pow2_strictly_increases(1075, 3 * spare);
    lemma_pow2_unfold(1075);
    let x = ten_to(count);
    let y = ten_to(spare);
    let u = one();
    assert(2 * (digits * u) < x * y) by (nonlinear_arith)
        requires
            digits < x,
            y > 2 * u,
            u >= 0,
    ;
    assert(magnitude(0) == 0);
    assert(magnitude(1) == 1);
    assert(crate::double::midpoint_twice(1) * divisor == divisor) by (nonlinear_arith)
        requires
            crate::double::midpoint_twice(1) == 1,
    ;
    assert(!reaches(digits * u, divisor, 1));
    assert(rounds_to(digits * u, divisor, 0));
    rounding_is_unique(digits * u, divisor, 0, rounded(digits * u, divisor));
}

/// A number far above the largest double rounds to infinity.
proof fn lemma_huge(digits: nat, exponent: int)
    requires
        digits > 0,
        exponent > 400,
    ensures
        decimal_double(digits, exponent) == INFINITY,
{
    let places = exponent as nat;
    lemma_ten_exceeds_eight(places);
    lemma_pow2_strictly_increases(1200, 3 * places);
    lemma_pow2_adds(1200, 1074);
    let t = ten_to(places);
    let u = one();
    let number = digits * t * u;
    lemma_pow2_pos(1074);
    assert(number >= pow2(1200) * u) by (nonlinear_arith)
        requires
            digits >= 1,
            t >= pow2(1200),
            u > 0,
            number == digits * t * u,
    ;
    let top = magnitude(INFINITY as nat);
    lemma2_to64();
    lemma_pow2_adds(52, 2046);
    assert(top == pow2(2098)) by {
        assert(0x7ff0_0000_0000_0000nat / 0x10_0000_0000_0000 == 2047);
        assert(0x7ff0_0000_0000_0000nat % 0x10_0000_0000_0000 == 0);
        lemma_pow52();
    }
    magnitude_is_increasing((INFINITY - 1) as nat, INFINITY as nat);
    lemma_pow2_strictly_increases(2098, 2274);
    assert(ten_to(0) == 1);
    assert(reaches(number, 1, INFINITY as nat));
    assert(rounds_to(number, 1, INFINITY as nat));
    rounding_is_unique(number, 1, INFINITY as nat, rounded(number, 1));
}

proof fn lemma_pow52()
    ensures
        pow2(52) == 0x10_0000_0000_0000,
        pow2(53) == 0x20_0000_0000_0000,
{
    lemma2_to64();
    lemma_pow2_adds(26, 26);
    lemma_pow2_unfold(53);
    lemma_pow2_adds(20, 6);
    assert(pow2(26) == 0x400_0000);
}

/// The double nearest to what `digits` write, times ten to the power of `exponent`.
fn decimal_bits(digits: &Vec<char>, exponent: i128, Ghost(exact): Ghost<int>) -> (bits: u64)
    requires
        digits.len() > 0,
        all_digits(digits@),
        near(exponent as int, exact),
        -0x20_0000_0000_0000_0000_0000_0000 <= exponent <= 0x20_0000_0000_0000_0000_0000_0000,
    ensures
        bits as nat == decimal_double(digits_value(digits@), exact),
        bits <= INFINITY,
{
    let ghost value = digits_value(digits@);
    let mut n = Natural::zero();
    assert(digits@.take(0) =~= Seq::<char>::empty());
    for i in 0..digits.len()
        invariant
            all_digits(digits@),
            n@ == digits_value(digits@.take(i as int)),
    {
        proof {
            assert(digits@.take(i + 1).drop_last() =~= digits@.take(i as int));
            assert(is_digit(digits@[i as int]));
        }
        let d: u32 = digits[i] as u32 - '0' as u32;
        n.multiply_add(10, d);
    }
    assert(digits@.take(digits@.len() as int) =~= digits@);
    let least = Natural::from_u64(1);
    if n.less(&least) {
        proof {
            lemma_ten_to_pos(0);
            if exact >= 0 {
                assert(0 * ten_to(exact as nat) * one() == 0) by (nonlinear_arith);
                lemma_zero(ten_to(0));
            } else {
                lemma_ten_to_pos((-exact) as nat);
                assert(0 * one() == 0) by (nonlinear_arith);
                lemma_zero(ten_to((-exact) as nat));
            }
        }
        return 0;
    }
    if exponent > 400 {
        proof {
            lemma_huge(value, exact);
        }
        return INFINITY;
    }
    let count: i128 = digits.len() as i128;
    if exponent + count < -400 {
        proof {
            lemma_digits_bound(digits@);
            lemma_tiny(value, digits@.len(), exact);
        }
        return 0;
    }
    assert(exponent == exact);
    if exponent >= 0 {
        n.scale_ten(exponent as u128);
        n.shift_left(1075);
        proof {
            lemma_pow2_unfold(1075);
            let x = value * ten_to(exact as nat);
            assert(x * (2 * one()) == 2 * (x * one())) by (nonlinear_arith);
        }
        round_to_double(&n, 0, Ghost(value * ten_to(exact as nat) * one()))
    } else {
        n.shift_left(1075);
        proof {
            lemma_pow2_unfold(1075);
            assert(value * (2 * one()) == 2 * (value * one())) by (nonlinear_arith);
        }
        round_to_double(&n, (-exponent) as u128, Ghost(value * one()))
    }
}

/// The double nearest to a thousand times the double `bits`.
fn thousand_bits(bits: u64) -> (product: u64)
    requires
        bits <= INFINITY,
    ensures
        product as nat == thousandfold(bits as nat),
        product <= INFINITY,
{
    let mut n = magnitude_of(bits);
    n.multiply_add(2000, 0);
    round_to_double(&n, 0, Ghost(1000 * magnitude(bits as nat)))
}

proof fn lemma_shifted_out(significand: nat, exponent: nat, places: nat)
    requires
        exponent + places == 1074,
    ensures
        (significand * pow2(exponent)) / pow2(1074) == significand / pow2(places),
{
    lemma_pow2_pos(exponent);
    lemma_pow2_pos(places);
    lemma_pow2_adds(exponent, places);
    let p = pow2(exponent) as int;
    let x = significand as int;
    vstd::arithmetic::div_mod::lemma_div_by_multiple(x, p);
    assert(x * p >= 0) by (nonlinear_arith)
        requires
            x >= 0,
            p >= 0,
    ;
    vstd::arithmetic::div_mod::lemma_div_denominator(x * p, p, pow2(places) as int);
}

proof fn lemma_at_least(number: nat, low: nat, unit: nat)
    requires
        unit > 0,
        number >= low * unit,
    ensures
        number / unit >= low,
{
    vstd::arithmetic::div_mod::lemma_div_by_multiple(low as int, unit as int);
    vstd::arithmetic::div_mod::lemma_div_is_ordered(
        (low * unit) as int,
        number as int,
        unit as int,
    );
}

/// The whole part of two to the power of `doublings` times the double `bits`. From two to the
/// power of 40 on the result only says that it is that large.
fn whole_part(bits: u64, doublings: u64) -> (whole: u64)
    requires
        bits <= INFINITY,
        doublings <= 1,
    ensures
        ({
            let exact = (magnitude(bits as nat) * pow2(doublings as nat)) / one();
            whole == exact || (whole >= 0x100_0000_0000 && exact >= 0x100_0000_0000)
        }),
{
    let exponent: u64 = bits / 0x10_0000_0000_0000;
    let fraction: u64 = bits % 0x10_0000_0000_0000;
    proof {
        lemma2_to64();
        lemma_pow52();
        lemma_pow2_pos(1074);
    }
    if exponent == 0 {
        proof {
            lemma_pow2_strictly_increases(53, 1074);
            let p = pow2(doublings as nat);
            assert(fraction * p < 0x20_0000_0000_0000) by (nonlinear_arith)
                requires
                    fraction < 0x10_0000_0000_0000,
                    p <= 2,
            ;
            vstd::arithmetic::div_mod::lemma_basic_div((fraction * p) as int, one() as int);
        }
        return 0;
    }
    let significand: u64 = 0x10_0000_0000_0000 + fraction;
    let power: u64 = exponent - 1 + doublings;
    proof {
        lemma_pow2_adds((exponent - 1) as nat, doublings as nat);
        let p = pow2((exponent - 1) as nat);
        let q = pow2(doublings as nat);
        assert(significand * p * q == significand * (p * q)) by (nonlinear_arith);
    }
    if power >= 1074 {
        proof {
            let extra = (power - 1074) as nat;
            lemma_pow2_adds(extra, 1074);
            lemma_pow2_pos(extra);
            let x = pow2(extra);
            let u = one();
            assert(significand * (x * u) >= 0x100_0000_0000 * u) by (nonlinear_arith)
                requires
                    significand >= 0x100_0000_0000,
                    x >= 1,
                    u > 0,
            ;
            lemma_at_least((significand * pow2(power as nat)) as nat, 0x100_0000_0000, u);
        }
        return 0x100_0000_0000;
    }
    let places: u64 = 1074 - power;
    proof {
        lemma_shifted_out(significand as nat, power as nat, places as nat);
    }
    if places > 53 {
        proof {
            lemma_pow2_strictly_increases(53, places as nat);
            vstd::arithmetic::div_mod::lemma_basic_div(
                significand as int,
                pow2(places as nat) as int,
            );
        }
        return 0;
    }
    let mut divisor: u64 = 1;
    for i in 0..places
        invariant
            places <= 53,
            divisor == pow2(i as nat),
            divisor <= 0x20_0000_0000_0000,
    {
        proof {
            lemma_pow2_unfold((i + 1) as nat);
            lemma_pow52();
            if i + 1 < 53 {
                lemma_pow2_strictly_increases((i + 1) as nat, 53);
            }
        }
        divisor = divisor * 2;
    }
    proof {
        lemma_pow2_pos(places as nat);
    }
    significand / divisor
}

/// What is wrong with the text of a refresh rate.
#[derive(Clone, Copy, PartialEq, Eq, Debug, Structural)]
pub enum RateError {
    /// It is no number.
    NotANumber,
    /// It is not finite, not positive, or too large.
    OutOfRange,
}

/// Reads a refresh rate in hertz; the result is in millihertz.
pub fn parse_rate(text: &Vec<char>) -> (rate: Result<u32, RateError>)
    ensures
        match rate {
            Ok(millihertz) => rate_in_millihertz(text@) == Some(millihertz as nat),
            Err(RateError::NotANumber) => read_float(text@) is None,
            Err(RateError::OutOfRange) => read_float(text@) is Some && rate_in_millihertz(text@)
                is None,
        },
{
    let parsed = match parse_float(text) {
        Some(parsed) => parsed,
        None => {
            return Err(RateError::NotANumber);
        },
    };
    match parsed {
        ParsedFloat::Finite { negative: false, digits, exponent } => {
            let ghost exact = (read_float(text@)->0)->exponent;
            let bits = decimal_bits(&digits, exponent, Ghost(exact));
            if bits == 0 || bits == INFINITY {
                return Err(RateError::OutOfRange);
            }
            let product = thousand_bits(bits);
            proof {
                lemma_limit_bits();
                if product < 0x41ef_ffff_ffe0_0000 {
                    magnitude_is_increasing(product as nat, 0x41ef_ffff_ffe0_0000);
                }
                if product > 0x41ef_ffff_ffe0_0000 {
                    magnitude_is_increasing(0x41ef_ffff_ffe0_0000, product as nat);
                }
            }
            if product > 0x41ef_ffff_ffe0_0000 {
                return Err(RateError::OutOfRange);
            }
            let twice = whole_part(product, 1);
            proof {
                lemma_pow2_pos(1074);
                lemma_half_up(magnitude(product as nat), one());
                lemma2_to64();
                let m = magnitude(product as nat);
                vstd::arithmetic::div_mod::lemma_div_is_ordered(
                    (m * 2) as int,
                    (0x1_ffff_fffe * one()) as int,
                    one() as int,
                );
                vstd::arithmetic::div_mod::lemma_div_by_multiple(0x1_ffff_fffe, one() as int);
            }
            Ok(((twice + 1) / 2) as u32)
        },
        _ => Err(RateError::OutOfRange),
    }
}

proof fn lemma_limit_bits()
    ensures
        magnitude(0x41ef_ffff_ffe0_0000) == rate_limit(),
{
    lemma2_to64();
    lemma_pow2_adds(21, 1053);
    let p = pow2(1053);
    assert(0x41ef_ffff_ffe0_0000nat / 0x10_0000_0000_0000 == 1054);
    assert(0x41ef_ffff_ffe0_0000nat % 0x10_0000_0000_0000 == 0xf_ffff_ffe0_0000);
    assert(pow2(21) == 0x20_0000);
    assert(0x1f_ffff_ffe0_0000 * p == 0xffff_ffff * (0x20_0000 * p)) by (nonlinear_arith);
}

/// Adding a half and dropping the fraction, by way of the whole part of the double.
proof fn lemma_half_up(m: nat, unit: nat)
    requires
        unit > 0,
    ensures
        (2 * m + unit) / (2 * unit) == ((m * 2) / unit + 1) / 2,
{
    let w = ((m * 2) / unit) as int;
    let r = ((m * 2) % unit) as int;
    vstd::arithmetic::div_mod::lemma_fundamental_div_mod((m * 2) as int, unit as int);
    let u = unit as int;
    assert(2 * m + u == u * (w + 1) + r) by (nonlinear_arith)
        requires
            m * 2 == u * w + r,
    ;
    vstd::arithmetic::div_mod::lemma_fundamental_div_mod_converse(
        2 * m + u,
        u,
        w + 1,
        r,
    );
    vstd::arithmetic::div_mod::lemma_div_denominator(2 * m + u, u, 2);
    assert(u * 2 == 2 * u);
}

/// Reads a refresh rate in hertz, leniently; the result is in millihertz, rounded.
pub fn parse_rate_rounded(text: &Vec<char>) -> (rate: Option<i32>)
    ensures
        rate is Some <==> rounded_millihertz(text@) is Some,
        rate is Some ==> rate->0 == rounded_millihertz(text@)->0,
{
    let parsed = match parse_float(text) {
        Some(parsed) => parsed,
        None => {
            return None;
        },
    };
    match parsed {
        ParsedFloat::Nan => Some(0),
        ParsedFloat::Infinite { negative } => if negative {
            Some(i32::MIN)
        } else {
            Some(i32::MAX)
        },
        ParsedFloat::Finite { negative, digits, exponent } => {
            let ghost exact = (read_float(text@)->0)->exponent;
            let bits = decimal_bits(&digits, exponent, Ghost(exact));
            let product = thousand_bits(bits);
            let twice = whole_part(product, 1);
            proof {
                lemma2_to64();
                lemma_pow2_pos(1074);
                lemma_half_up(magnitude(product as nat), one());
            }
            let whole: u64 = if twice < 0x100_0000_0000 {
                (twice + 1) / 2
            } else {
                0x80_0000_0000
            };
            if negative {
                if whole < 0x8000_0000 {
                    Some((-(whole as i64)) as i32)
                } else {
                    Some(i32::MIN)
                }
            } else if whole < 0x7fff_ffff {
                Some(whole as i32)
            } else {
                Some(i32::MAX)
            }
        },
    }
}

// ---------------------------------------------------------------------------------------------
// Reading back
// ---------------------------------------------------------------------------------------------

/// A rate of whole millihertz, written in hertz with at most three decimals, survives being read as a
/// double and taken a thousand times: rounding gives it back exactly.
pub proof fn decimal_rates_survive(digits: nat, places: nat, millihertz: nat)
    requires
        1 <= millihertz <= 0x7fff_ffff,
        places <= 3,
        digits * 1000 == millihertz * ten_to(places),
    ensures
        ({
            let rate = decimal_double(digits, -(places as int));
            let product = magnitude(thousandfold(rate));
            &&& 0 < rate < INFINITY
            &&& product <= rate_limit()
            &&& (2 * product + one()) / (2 * one()) == millihertz
        }),
{
    let u = one();
    let q = ten_to(places);
    let n = digits * u;
    reveal_with_fuel(ten_to, 4);
    assert(ten_to(0) == 1);
    assert(1 <= q <= 1000);
    lemma_pow2_pos(1074);
    // One is a large number of units, and a rate is a small number of ones.
    assert(u >= 0x400_0000 * 0x10_0000_0000_0000) by {
        lemma2_to64();
        lemma_pow2_adds(32, 1042);
        lemma_pow2_adds(64, 978);
        lemma_pow2_pos(978);
        let w = pow2(978);
        assert(u == 0x1_0000_0000 * (0x1_0000_0000_0000_0000 * w));
        assert(0x1_0000_0000 * (0x1_0000_0000_0000_0000 * w) >= 0x400_0000 * 0x10_0000_0000_0000)
            by (nonlinear_arith)
            requires
                w >= 1,
        ;
    }
    let top = pow2(2000);
    assert(top >= 0x8000_0000_0000 * u) by {
        lemma2_to64();
        lemma_pow2_adds(1074, 926);
        lemma_pow2_strictly_increases(64, 926);
        let v = pow2(926);
        assert(u * v >= 0x8000_0000_0000 * u) by (nonlinear_arith)
            requires
                v >= 0x8000_0000_0000,
                u >= 0,
        ;
    }
    let x = millihertz * u;
    assert(1 * u <= x <= 0x7fff_ffff * u) by (nonlinear_arith)
        requires
            x == millihertz * u,
            1 <= millihertz <= 0x7fff_ffff,
            u >= 0,
    ;
    assert(1000 * n == x * q) by (nonlinear_arith)
        requires
            n == digits * u,
            x == millihertz * u,
            digits * 1000 == millihertz * q,
    ;
    let rate = decimal_double(digits, -(places as int));
    assert(rate == rounded(n, q)) by {
        if places == 0 {
            assert(digits * ten_to(0) * one() == n) by (nonlinear_arith)
                requires
                    ten_to(0) == 1,
                    n == digits * one(),
            ;
        }
    }
    assert(0x10_0000_0000_0000 * q <= n) by (nonlinear_arith)
        requires
            1000 * n == x * q,
            x >= u,
            u >= 0x400_0000 * 0x10_0000_0000_0000,
            q >= 1,
    ;
    assert(n <= top * q) by (nonlinear_arith)
        requires
            1000 * n == x * q,
            x <= 0x7fff_ffff * u,
            top >= 0x8000_0000_0000 * u,
            q >= 1,
            u >= 0,
    ;
    the_nearest_double_is_near(n, q);
    let m = magnitude(rate);
    let y = 1000 * m;
    // The double is near to the rate, in terms of millihertz.
    assert(0x20_0000_0000_0000 * (x - y) <= y) by (nonlinear_arith)
        requires
            0x20_0000_0000_0000 * (n - m * q) <= m * q,
            1000 * n == x * q,
            y == 1000 * m,
            q >= 1,
    ;
    assert(0x20_0000_0000_0000 * (y - x) <= y) by (nonlinear_arith)
        requires
            0x20_0000_0000_0000 * (m * q - n) <= m * q,
            1000 * n == x * q,
            y == 1000 * m,
            q >= 1,
    ;
    assert(y <= 2 * x);
    assert(x <= 2 * y);
    assert(thousandfold(rate) == rounded(y as nat, 1));
    assert(top * 1 == top);
    the_nearest_double_is_near(y as nat, 1);
    let z = magnitude(thousandfold(rate));
    assert(z * 1 == z);
    assert(z <= 2 * y);
    assert(2 * (x - z) < u && 2 * (z - x) < u);
    // What follows is rounding to whole ones.
    assert(0xffff_ffff * u >= 0x7fff_ffff * u + u) by (nonlinear_arith)
        requires
            u >= 0,
    ;
    assert((2 * z + u) / (2 * u) == millihertz) by {
        let rest = 2 * z + u - 2 * x;
        assert(0 <= rest < 2 * u);
        assert(2 * z + u == (2 * u) * millihertz + rest) by (nonlinear_arith)
            requires
                rest == 2 * z + u - 2 * x,
                x == millihertz * u,
        ;
        vstd::arithmetic::div_mod::lemma_fundamental_div_mod_converse(
            (2 * z + u) as int,
            (2 * u) as int,
            millihertz as int,
            rest,
        );
    }
}

/// A rate that a configuration may have is positive, and is the whole number of millihertz that is nearest
/// to a thousand times what was read, at most half a millihertz off. Where a mode is looked for, the same
/// text asks for the same rate, as far as the type of a rate goes.
pub proof fn rates_are_rounded_to_the_nearest(s: Seq<char>)
    ensures
        rate_in_millihertz(s) matches Some(rate) ==> {
            let (digits, exponent) = ((read_float(s)->0)->digits, (read_float(s)->0)->exponent);
            let product = magnitude(thousandfold(decimal_double(digits, exponent)));
            &&& read_float(s) is Some && read_float(s)->0 is Finite
            &&& !(read_float(s)->0)->Finite_negative
            &&& 2 * product < (2 * rate + 1) * one()
            &&& 2 * product >= (2 * rate - 1) * one()
            &&& rate <= u32::MAX
            &&& rate < i32::MAX ==> rounded_millihertz(s) == Some(rate as int)
        },
{
    if let Some(rate) = rate_in_millihertz(s) {
        let (digits, exponent) = ((read_float(s)->0)->digits, (read_float(s)->0)->exponent);
        let product = magnitude(thousandfold(decimal_double(digits, exponent)));
        let u = one();
        lemma_pow2_pos(1074);
        let top = 2 * product + u;
        vstd::arithmetic::div_mod::lemma_fundamental_div_mod(top as int, 2 * u as int);
        let rest = top % (2 * u);
        assert(0 <= rest < 2 * u);
        assert(top == (2 * u) * rate + rest);
        assert((2 * rate + 1) * u == (2 * u) * rate + u) by (nonlinear_arith);
        assert((2 * rate - 1) * u == (2 * u) * rate - u) by (nonlinear_arith);
        if rate > u32::MAX {
            assert((2 * rate - 1) * u > 2 * (0xffff_ffff * u)) by (nonlinear_arith)
                requires
                    rate >= 0x1_0000_0000,
                    u > 0,
            ;
        }
    }
}

/// Rates below zero are read as those above zero are, with the sign.
pub proof fn negative_rates_mirror_positive_ones(a: Seq<char>, b: Seq<char>)
    requires
        read_float(a) matches Some(FloatText::Finite { negative: false, digits, exponent }) && read_float(
            b,
        ) == Some(FloatText::Finite { negative: true, digits, exponent }),
    ensures
        rounded_millihertz(a)->0 < i32::MAX ==> rounded_millihertz(b) == Some(
            -rounded_millihertz(a)->0,
        ),
        rounded_millihertz(a) is Some && rounded_millihertz(b) is Some,
        rate_in_millihertz(b) is None,
{
}

} // verus!
