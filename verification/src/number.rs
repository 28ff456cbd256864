//! Whole numbers in decimal notation: writing them, and reading them back.

use vstd::prelude::*;

verus! {

/// Whether `c` is an ASCII digit.
pub open spec fn is_digit(c: char) -> bool {
    '0' <= c <= '9'
}

/// The value of an ASCII digit.
pub open spec fn digit_value(c: char) -> nat {
    (c as int - '0' as int) as nat
}

/// The ASCII digit of value `d`, for `d` below ten.
pub open spec fn digit(d: nat) -> char {
    ('0' as int + d) as char
}

/// `n` in decimal notation, without leading zeros.
pub open spec fn decimal(n: nat) -> Seq<char>
    decreases n,
{
    if n < 10 {
        seq![digit(n)]
    } else {
        decimal(n / 10).push(digit(n % 10))
    }
}

/// `i` in decimal notation, with a leading minus sign if it is negative.
pub open spec fn signed_decimal(i: int) -> Seq<char> {
    if i < 0 {
        seq!['-'] + decimal((-i) as nat)
    } else {
        decimal(i as nat)
    }
}

/// Whether every character of `s` is an ASCII digit.
pub open spec fn all_digits(s: Seq<char>) -> bool {
    forall|i: int| 0 <= i < s.len() ==> is_digit(#[trigger] s[i])
}

/// The number that the digits of `s` write down; nothing writes down zero.
pub open spec fn digits_value(s: Seq<char>) -> nat
    decreases s.len(),
{
    if s.len() == 0 {
        0
    } else {
        10 * digits_value(s.drop_last()) + digit_value(s.last())
    }
}

/// What `s` reads as, as an unsigned integer of at most `max`: digits behind an optional plus sign.
pub open spec fn read_unsigned(s: Seq<char>, max: nat) -> Option<nat> {
    let body = if s.len() > 0 && s[0] == '+' {
        s.skip(1)
    } else {
        s
    };
    if body.len() > 0 && all_digits(body) && digits_value(body) <= max {
        Some(digits_value(body))
    } else {
        None
    }
}

/// What `s` reads as, as an `i32`: digits behind an optional sign.
pub open spec fn read_i32(s: Seq<char>) -> Option<int> {
    if s.len() > 0 && s[0] == '-' {
        let body = s.skip(1);
        if body.len() > 0 && all_digits(body) && digits_value(body) <= 0x8000_0000 {
            Some(-digits_value(body))
        } else {
            None
        }
    } else {
        match read_unsigned(s, 0x7fff_ffff) {
            Some(value) => Some(value as int),
            None => None,
        }
    }
}

/// Decimal notation is digits only, at least one, and reads back as the number it writes.
pub proof fn decimal_reads_back(n: nat)
    ensures
        decimal(n).len() > 0,
        all_digits(decimal(n)),
        digits_value(decimal(n)) == n,
    decreases n,
{
    if n < 10 {
        let s = seq![digit(n)];
        assert(s.drop_last() =~= Seq::<char>::empty());
        assert(digits_value(s.drop_last()) == 0);
    } else {
        decimal_reads_back(n / 10);
        let s = decimal(n);
        assert(s.drop_last() =~= decimal(n / 10));
        assert(s.last() == digit(n % 10));
        assert forall|i: int| 0 <= i < s.len() implies is_digit(#[trigger] s[i]) by {
            if i < s.len() - 1 {
                assert(s[i] == decimal(n / 10)[i]);
            }
        }
    }
}

/// Different integers have different decimal notations.
pub proof fn signed_decimal_is_injective(a: int, b: int)
    requires
        signed_decimal(a) == signed_decimal(b),
    ensures
        a == b,
{
    lemma_signed_decimal_chars(a);
    lemma_signed_decimal_chars(b);
    let x = signed_decimal(a);
    if a < 0 {
        assert(x[0] == '-');
        assert(b < 0) by {
            if b >= 0 {
                assert(is_digit(signed_decimal(b)[0]));
            }
        }
        assert(x.skip(1) =~= decimal((-a) as nat));
        assert(x.skip(1) =~= decimal((-b) as nat));
        decimal_reads_back((-a) as nat);
        decimal_reads_back((-b) as nat);
    } else {
        assert(is_digit(x[0]));
        assert(b >= 0);
        decimal_reads_back(a as nat);
        decimal_reads_back(b as nat);
    }
}

/// The notation of an integer is made of digits, with a minus sign in front of a negative one.
pub proof fn lemma_signed_decimal_chars(i: int)
    ensures
        signed_decimal(i).len() > 0,
        i < 0 ==> signed_decimal(i)[0] == '-',
        i >= 0 ==> is_digit(signed_decimal(i)[0]),
        forall|k: int|
            0 <= k < signed_decimal(i).len() ==> (is_digit(#[trigger] signed_decimal(i)[k])
                || signed_decimal(i)[k] == '-'),
{
    if i < 0 {
        decimal_reads_back((-i) as nat);
        let d = decimal((-i) as nat);
        assert forall|k: int| 0 <= k < signed_decimal(i).len() implies is_digit(
            #[trigger] signed_decimal(i)[k],
        ) || signed_decimal(i)[k] == '-' by {
            if k > 0 {
                assert(signed_decimal(i)[k] == d[k - 1]);
            }
        }
    } else {
        decimal_reads_back(i as nat);
    }
}

/// What an `i32` in decimal notation reads back as.
pub proof fn signed_decimal_reads_back(i: int)
    requires
        i32::MIN <= i <= i32::MAX,
    ensures
        read_i32(signed_decimal(i)) == Some(i),
{
    lemma_signed_decimal_chars(i);
    if i < 0 {
        decimal_reads_back((-i) as nat);
        assert(signed_decimal(i).skip(1) =~= decimal((-i) as nat));
    } else {
        decimal_reads_back(i as nat);
    }
}

/// More digits never write a smaller number.
pub proof fn lemma_digits_value_grows(s: Seq<char>, k: int)
    requires
        0 <= k <= s.len(),
    ensures
        digits_value(s.take(k)) <= digits_value(s),
    decreases s.len() - k,
{
    if k < s.len() {
        lemma_digits_value_grows(s, k + 1);
        assert(s.take(k + 1).drop_last() =~= s.take(k));
    } else {
        assert(s.take(k) =~= s);
    }
}

/// Writes `n` in decimal notation at the end of `text`.
pub fn append_decimal(text: &mut String, n: u64)
    ensures
        final(text)@ == old(text)@ + decimal(n as nat),
    decreases n,
{
    let ghost start = text@;
    if n >= 10 {
        append_decimal(text, n / 10);
    }
    let d: u8 = (n % 10) as u8;
    let c: char = (48u8 + d) as char;
    text.push(c);
    assert(c == digit((n % 10) as nat));
    proof {
        if n >= 10 {
            assert(text@ =~= start + decimal((n / 10) as nat).push(c));
        } else {
            assert(text@ =~= start + seq![c]);
        }
    }
}

/// Writes `i` in decimal notation at the end of `text`.
pub fn append_signed(text: &mut String, i: i32)
    ensures
        final(text)@ == old(text)@ + signed_decimal(i as int),
{
    let ghost start = text@;
    let wide: i64 = i as i64;
    if wide < 0 {
        text.push('-');
        append_decimal(text, (-wide) as u64);
        assert(text@ =~= start + (seq!['-'] + decimal((-(i as int)) as nat)));
    } else {
        append_decimal(text, wide as u64);
    }
}

/// Whether `chars` holds ASCII digits only from `from` on.
fn digits_from(chars: &Vec<char>, from: usize) -> (digits: bool)
    requires
        from <= chars.len(),
    ensures
        digits == all_digits(chars@.skip(from as int)),
{
    let ghost rest = chars@.skip(from as int);
    for i in from..chars.len()
        invariant
            from <= chars.len(),
            rest == chars@.skip(from as int),
            forall|k: int| 0 <= k < i - from ==> is_digit(#[trigger] rest[k]),
    {
        if !('0' <= chars[i] && chars[i] <= '9') {
            assert(rest[i - from] == chars@[i as int]);
            return false;
        }
        assert(rest[i - from] == chars@[i as int]);
    }
    true
}

/// The number that the digits of `chars` write from `from` on, if it is at most `max`.
fn value_from(chars: &Vec<char>, from: usize, max: u64) -> (value: Option<u64>)
    requires
        from <= chars.len(),
        all_digits(chars@.skip(from as int)),
        max <= 0xffff_ffff,
    ensures
        value is Some <==> digits_value(chars@.skip(from as int)) <= max,
        value is Some ==> value->0 == digits_value(chars@.skip(from as int)),
{
    let ghost rest = chars@.skip(from as int);
    let mut value: u64 = 0;
    assert(rest.take(0) =~= Seq::<char>::empty());
    for i in from..chars.len()
        invariant
            from <= chars.len(),
            rest == chars@.skip(from as int),
            all_digits(rest),
            value == digits_value(rest.take(i - from)),
            value <= max <= 0xffff_ffff,
    {
        proof {
            assert(rest.take(i - from + 1).drop_last() =~= rest.take(i - from));
            assert(rest[i - from] == chars@[i as int]);
            assert(is_digit(rest[i - from]));
        }
        let d: u64 = chars[i] as u64 - '0' as u64;
        value = value * 10 + d;
        assert(value == digits_value(rest.take(i - from + 1)));
        if value > max {
            proof {
                lemma_digits_value_grows(rest, i - from + 1);
            }
            return None;
        }
    }
    assert(rest.take(rest.len() as int) =~= rest);
    Some(value)
}

/// Reads an unsigned integer of at most `max`.
pub fn parse_unsigned(chars: &Vec<char>, max: u64) -> (value: Option<u64>)
    requires
        max <= 0xffff_ffff,
    ensures
        value is Some <==> read_unsigned(chars@, max as nat) is Some,
        value is Some ==> value->0 == read_unsigned(chars@, max as nat)->0,
{
    let from: usize = if chars.len() > 0 && chars[0] == '+' {
        1
    } else {
        0
    };
    assert(chars@.skip(0) =~= chars@);
    if from == chars.len() || !digits_from(chars, from) {
        return None;
    }
    value_from(chars, from, max)
}

/// Reads an `i32`.
pub fn parse_i32(chars: &Vec<char>) -> (value: Option<i32>)
    ensures
        value is Some <==> read_i32(chars@) is Some,
        value is Some ==> value->0 == read_i32(chars@)->0,
{
    if chars.len() > 0 && chars[0] == '-' {
        if chars.len() == 1 || !digits_from(chars, 1) {
            return None;
        }
        match value_from(chars, 1, 0x8000_0000) {
            Some(value) => Some((-(value as i64)) as i32),
            None => None,
        }
    } else {
        match parse_unsigned(chars, 0x7fff_ffff) {
            Some(value) => Some(value as i32),
            None => None,
        }
    }
}

} // verus!
