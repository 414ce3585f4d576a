//! Whole numbers as decimal text, and back.
use vstd::prelude::*;

use crate::text::chars;

verus! {

/// Whether `c` is one of the ten ASCII digits.
pub open spec fn is_digit(c: char) -> bool {
    '0' as u32 <= c as u32 <= '9' as u32
}

/// Whether `c` is one of the ten ASCII digits.
pub fn digit(c: char) -> (r: bool)
    ensures
        r == is_digit(c),
{
    '0' <= c && c <= '9'
}

/// Whether all characters of `s` are ASCII digits.
pub open spec fn all_digits(s: Seq<char>) -> bool {
    forall|i: int| 0 <= i < s.len() ==> is_digit(#[trigger] s[i])
}

/// Whether all characters of `s` are ASCII digits.
pub fn only_digits(s: &str) -> (r: bool)
    ensures
        r == all_digits(s@),
{
    let all = chars(s);
    for i in 0..all.len()
        invariant
            all@ == s@,
            all_digits(s@.take(i as int)),
    {
        if !digit(all[i]) {
            assert(!is_digit(s@[i as int]));
            return false;
        }
        assert forall|j: int| 0 <= j < i + 1 implies is_digit(#[trigger] s@.take(i + 1)[j]) by {
            if j < i {
                assert(s@.take(i as int)[j] == s@[j]);
            }
        }
    }
    assert(s@.take(s@.len() as int) =~= s@);
    true
}

/// The digit character of `d`, for `d` below ten.
pub open spec fn digit_char(d: int) -> char {
    ('0' as u32 + d) as char
}

/// A natural number in decimal, without leading zeros.
pub open spec fn decimal_nat(n: nat) -> Seq<char>
    decreases n,
{
    if n < 10 {
        seq![digit_char(n as int)]
    } else {
        decimal_nat(n / 10).push(digit_char((n % 10) as int))
    }
}

/// A whole number in decimal, with `-` before a negative one.
pub open spec fn decimal_int(n: int) -> Seq<char> {
    if n < 0 {
        seq!['-'] + decimal_nat((-n) as nat)
    } else {
        decimal_nat(n as nat)
    }
}

/// A natural number in decimal.
pub fn decimal_u64(n: u64) -> (r: String)
    ensures
        r@ == decimal_nat(n as nat),
    decreases n,
{
    let last: u8 = (n % 10) as u8;
    let c: char = (48u8 + last) as char;
    assert(c == digit_char((n % 10) as int));
    let mut out = if n < 10 {
        String::new()
    } else {
        decimal_u64(n / 10)
    };
    out.push(c);
    assert(n < 10 ==> out@ =~= seq![c]);
    out
}

/// A count in decimal.
pub fn decimal_usize(n: usize) -> (r: String)
    ensures
        r@ == decimal_nat(n as nat),
{
    decimal_u64(n as u64)
}

/// A whole number in decimal.
pub fn decimal(n: i64) -> (r: String)
    ensures
        r@ == decimal_int(n as int),
{
    if n < 0 {
        let size: u64 = (-(n as i128)) as u64;
        let mut out = String::new();
        out.push('-');
        let ghost sign = out@;
        out.append(decimal_u64(size).as_str());
        assert(sign =~= seq!['-']);
        out
    } else {
        decimal_u64(n as u64)
    }
}

/// The number that a row of digits stands for.
pub open spec fn digits_value(s: Seq<char>) -> nat
    decreases s.len(),
{
    if s.len() == 0 {
        0
    } else {
        10 * digits_value(s.drop_last()) + (s.last() as u32 - '0' as u32) as nat
    }
}

/// The digits after an optional sign, and whether the sign is a minus.
pub open spec fn unsigned_part(s: Seq<char>) -> (bool, Seq<char>) {
    if s.len() > 0 && s[0] == '-' {
        (true, s.skip(1))
    } else if s.len() > 0 && s[0] == '+' {
        (false, s.skip(1))
    } else {
        (false, s)
    }
}

/// The 64-bit number that `s` writes: an optional sign and at least one digit.
/// None where `s` is not of that form or the number does not fit.
pub open spec fn parsed_i64(s: Seq<char>) -> Option<int> {
    let (minus, digits) = unsigned_part(s);
    let size = digits_value(digits) as int;
    let value = if minus {
        -size
    } else {
        size
    };
    if digits.len() > 0 && all_digits(digits) && i64::MIN <= value <= i64::MAX {
        Some(value)
    } else {
        None
    }
}

proof fn lemma_value_grows(s: Seq<char>, n: int)
    requires
        0 <= n <= s.len(),
        all_digits(s),
    ensures
        digits_value(s.take(n)) <= digits_value(s),
    decreases s.len() - n,
{
    if n < s.len() {
        lemma_value_grows(s, n + 1);
        let longer = s.take(n + 1);
        assert(longer.drop_last() =~= s.take(n));
        assert(longer.last() == s[n]);
    } else {
        assert(s.take(n) =~= s);
    }
}

/// The number that `s` writes, where it has that form and fits in 64 bits.
pub fn parse_i64(s: &str) -> (r: Option<i64>)
    ensures
        match r {
            Some(n) => parsed_i64(s@) == Some(n as int),
            None => parsed_i64(s@) is None,
        },
{
    let all = chars(s);
    let minus: bool = all.len() > 0 && all[0] == '-';
    let signed: bool = minus || (all.len() > 0 && all[0] == '+');
    let start: usize = if signed { 1 } else { 0 };
    let ghost digits = unsigned_part(s@).1;
    assert(digits =~= s@.skip(start as int));
    if start == all.len() {
        return None;
    }
    let mut size: u64 = 0;
    let mut i: usize = start;
    while i < all.len()
        invariant
            all@ == s@,
            start <= i <= all@.len(),
            digits == s@.skip(start as int),
            unsigned_part(s@) == (minus, digits),
            all_digits(digits.take(i - start)),
            size == digits_value(digits.take(i - start)),
            size <= 0x8000_0000_0000_0000,
        decreases all@.len() - i,
    {
        let c = all[i];
        assert(digits[i - start] == c);
        if !digit(c) {
            return None;
        }
        proof {
            let now = digits.take(i + 1 - start);
            assert(now.drop_last() =~= digits.take(i - start));
            assert(now.last() == c);
            assert forall|j: int| 0 <= j < now.len() implies is_digit(#[trigger] now[j]) by {
                if j < i - start {
                    assert(now[j] == digits.take(i - start)[j]);
                }
            }
        }
        let value: u128 = size as u128 * 10 + (c as u32 - '0' as u32) as u128;
        assert(value == digits_value(digits.take(i + 1 - start)));
        if value > 0x8000_0000_0000_0000 {
            proof {
                if all_digits(digits) {
                    lemma_value_grows(digits, i + 1 - start);
                }
            }
            return None;
        }
        size = value as u64;
        i += 1;
    }
    assert(digits.take(all@.len() - start) =~= digits);
    if minus {
        Some((-(size as i128)) as i64)
    } else if size <= i64::MAX as u64 {
        Some(size as i64)
    } else {
        None
    }
}

/// The decimal text of a number ends in its last digit, and what stands before that
/// is the text of a tenth of it; it is made of digits, and only zero begins with one.
pub proof fn law_decimal(n: nat, d: nat)
    requires
        d < 10,
    ensures
        n > 0 ==> decimal_nat(10 * n + d) == decimal_nat(n).push(('0' as u32 + d) as char),
        decimal_nat(d) == seq![('0' as u32 + d) as char],
        all_digits(decimal_nat(n)),
        decimal_nat(n).len() > 0,
        n > 0 ==> decimal_nat(n)[0] != '0',
    decreases n,
{
    if n >= 10 {
        law_decimal(n / 10, n % 10);
        let head = decimal_nat(n / 10);
        let all = decimal_nat(n);
        assert forall|i: int| 0 <= i < all.len() implies is_digit(#[trigger] all[i]) by {
            if i < head.len() {
                assert(all[i] == head[i]);
            }
        }
        assert(all[0] == head[0]);
    }
    assert((10 * n + d) / 10 == n && (10 * n + d) % 10 == d);
}

/// A number of 64 bits reads back from its decimal text.
pub proof fn law_decimal_reads_back(n: int)
    requires
        i64::MIN <= n <= i64::MAX,
    ensures
        parsed_i64(decimal_int(n)) == Some(n),
{
    let size = if n < 0 {
        (-n) as nat
    } else {
        n as nat
    };
    lemma_value_of_decimal(size);
    law_decimal(size, 0);
    let digits = decimal_nat(size);
    let all = decimal_int(n);
    if n < 0 {
        assert(all.skip(1) =~= digits);
    } else {
        assert(is_digit(digits[0]));
    }
}

/// The digits of a number in decimal stand for the number.
pub proof fn lemma_value_of_decimal(n: nat)
    ensures
        digits_value(decimal_nat(n)) == n,
    decreases n,
{
    reveal_with_fuel(digits_value, 2);
    if n >= 10 {
        lemma_value_of_decimal(n / 10);
        assert(decimal_nat(n).drop_last() =~= decimal_nat(n / 10));
    } else {
        assert(decimal_nat(n).drop_last() =~= Seq::empty());
    }
}

/// A number is read from digits, with or without a sign before them; a minus makes it
/// negative, a plus changes nothing, and anything else is no number.
pub proof fn law_number_read(digits: Seq<char>, c: char)
    requires
        digits.len() > 0,
        all_digits(digits),
    ensures
        digits_value(digits) <= i64::MAX ==> {
            &&& parsed_i64(digits) == Some(digits_value(digits) as int)
            &&& parsed_i64(seq!['+'] + digits) == parsed_i64(digits)
            &&& parsed_i64(seq!['-'] + digits) == Some(-(digits_value(digits) as int))
        },
        digits_value(digits) > i64::MAX ==> parsed_i64(digits) is None,
        !is_digit(c) ==> parsed_i64(digits.push(c)) is None,
        parsed_i64(Seq::empty()) is None,
        digits_value(digits.push('7')) == 10 * digits_value(digits) + 7,
{
    assert(is_digit(digits[0]));
    assert((seq!['+'] + digits).skip(1) =~= digits);
    assert((seq!['-'] + digits).skip(1) =~= digits);
    assert(digits.push('7').drop_last() =~= digits);
    if !is_digit(c) {
        let all = digits.push(c);
        assert(all[0] == digits[0]);
        assert(!is_digit(all[digits.len() as int]));
    }
}

} // verus!
