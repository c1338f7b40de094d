//! Decimal numbers as the reports write them and as the deal tool reads them.

use crate::text::{chars_of, is_value};
use vstd::prelude::*;

verus! {

/// Whether `c` is one of the ten decimal digits.
pub open spec fn is_digit(c: char) -> bool {
    0x30 <= c as u32 <= 0x39
}

/// The number that the digit `c` stands for.
pub open spec fn digit_of(c: char) -> nat {
    (c as u32 - 0x30) as nat
}

/// The digit that stands for `d`, where `d` is below ten.
pub open spec fn digit_char(d: nat) -> char {
    if d == 0 {
        '0'
    } else if d == 1 {
        '1'
    } else if d == 2 {
        '2'
    } else if d == 3 {
        '3'
    } else if d == 4 {
        '4'
    } else if d == 5 {
        '5'
    } else if d == 6 {
        '6'
    } else if d == 7 {
        '7'
    } else if d == 8 {
        '8'
    } else {
        '9'
    }
}

/// Whether `s` holds digits only.
pub open spec fn all_digits(s: Seq<char>) -> bool {
    forall|i: int| 0 <= i < s.len() ==> is_digit(#[trigger] s[i])
}

/// The number that the digits `s` write, most significant digit first.
pub open spec fn digits_value(s: Seq<char>) -> nat
    decreases s.len(),
{
    if s.len() == 0 {
        0
    } else {
        digits_value(s.drop_last()) * 10 + digit_of(s.last())
    }
}

/// Whether `s` starts with the sign `sign`.
pub open spec fn has_sign(s: Seq<char>, sign: char) -> bool {
    s.len() > 0 && s[0] == sign
}

/// The natural number that `s` writes: one digit or more, after a `+` or
/// nothing. Nothing else may stand in `s`.
pub open spec fn unsigned_of(s: Seq<char>) -> Option<nat> {
    let digits = if has_sign(s, '+') {
        s.drop_first()
    } else {
        s
    };
    if digits.len() > 0 && all_digits(digits) {
        Some(digits_value(digits))
    } else {
        None
    }
}

/// The integer that `s` writes: one digit or more, after a `+`, a `-` or
/// nothing. Nothing else may stand in `s`.
pub open spec fn signed_of(s: Seq<char>) -> Option<int> {
    let digits = if has_sign(s, '+') || has_sign(s, '-') {
        s.drop_first()
    } else {
        s
    };
    if digits.len() > 0 && all_digits(digits) {
        if has_sign(s, '-') {
            Some(-(digits_value(digits) as int))
        } else {
            Some(digits_value(digits) as int)
        }
    } else {
        None
    }
}

/// The `usize` that `s` writes, if it writes a natural number that fits.
pub open spec fn usize_of(s: Seq<char>) -> Option<usize> {
    match unsigned_of(s) {
        Some(n) => if n <= usize::MAX {
            Some(n as usize)
        } else {
            None
        },
        None => None,
    }
}

/// The `i64` that `s` writes, if it writes an integer that fits.
pub open spec fn i64_of(s: Seq<char>) -> Option<i64> {
    match signed_of(s) {
        Some(n) => if i64::MIN <= n <= i64::MAX {
            Some(n as i64)
        } else {
            None
        },
        None => None,
    }
}

/// `n` in decimal, without sign or leading zeros.
pub open spec fn decimal(n: nat) -> Seq<char>
    decreases n,
{
    if n < 10 {
        seq![digit_char(n)]
    } else {
        decimal(n / 10).push(digit_char(n % 10))
    }
}

/// `n` in decimal, with a `-` before it where it is below zero.
pub open spec fn integer(n: int) -> Seq<char> {
    if n < 0 {
        seq!['-'] + decimal((-n) as nat)
    } else {
        decimal(n as nat)
    }
}

/// A prefix of a digit string writes no more than the whole.
pub proof fn lemma_digits_value_grows(s: Seq<char>, k: int)
    requires
        0 <= k <= s.len(),
    ensures
        digits_value(s.take(k)) <= digits_value(s),
    decreases s.len(),
{
    if k < s.len() {
        lemma_digits_value_grows(s.drop_last(), k);
        assert(s.drop_last().take(k) =~= s.take(k));
        assert(digits_value(s.drop_last()) * 10 >= digits_value(s.drop_last()));
    } else {
        assert(s.take(k) =~= s);
    }
}

/// Decides [`all_digits`] on `text[from..]`.
fn digits_only(text: &Vec<char>, from: usize) -> (r: bool)
    requires
        from <= text.len(),
    ensures
        r == all_digits(text@.skip(from as int)),
{
    let mut i: usize = from;
    while i < text.len()
        invariant
            from <= i <= text.len(),
            forall|j: int| from <= j < i ==> is_digit(text@[j]),
        decreases text.len() - i,
    {
        let n: u32 = text[i] as u32;
        if n < 0x30 || n > 0x39 {
            assert(!is_digit(text@.skip(from as int)[i - from]));
            return false;
        }
        i = i + 1;
    }
    assert forall|j: int| 0 <= j < text@.skip(from as int).len() implies is_digit(
        #[trigger] text@.skip(from as int)[j],
    ) by {
        assert(is_digit(text@[from + j]));
    }
    true
}

/// The number that the digits `text[from..]` write, if it fits in a `u64`.
fn magnitude(text: &Vec<char>, from: usize) -> (r: Option<u64>)
    requires
        from <= text.len(),
        all_digits(text@.skip(from as int)),
    ensures
        match r {
            Some(n) => n == digits_value(text@.skip(from as int)),
            None => digits_value(text@.skip(from as int)) > u64::MAX,
        },
{
    let ghost digits = text@.skip(from as int);
    let mut acc: u64 = 0;
    let mut i: usize = from;
    assert(digits.take(0) =~= Seq::<char>::empty());
    while i < text.len()
        invariant
            from <= i <= text.len(),
            digits == text@.skip(from as int),
            all_digits(digits),
            acc == digits_value(digits.take(i - from)),
        decreases text.len() - i,
    {
        let ghost next = digits.take(i - from + 1);
        assert(next.drop_last() =~= digits.take(i - from));
        assert(next.last() == text@[i as int]);
        assert(is_digit(digits[i - from]));
        proof {
            lemma_digits_value_grows(digits, i - from + 1);
        }
        let d: u64 = (text[i] as u32 - 0x30) as u64;
        let shifted = match acc.checked_mul(10) {
            Some(v) => v,
            None => { return None; },
        };
        acc = match shifted.checked_add(d) {
            Some(v) => v,
            None => { return None; },
        };
        i = i + 1;
    }
    assert(digits.take(i - from) =~= digits);
    Some(acc)
}

/// What follows the first character of `s` is `s` without it, and what follows
/// none of its characters is `s`.
proof fn lemma_after_sign(s: Seq<char>)
    ensures
        s.skip(0) == s,
        s.skip(1) == s.drop_first(),
{
    assert(s.skip(0) =~= s);
}

/// Reads a `usize` as [`usize_of`] defines it.
pub fn parse_usize(text: &str) -> (r: Option<usize>)
    ensures
        r == usize_of(text@),
{
    let chars = chars_of(text);
    let from: usize = if chars.len() > 0 && chars[0] == '+' {
        1
    } else {
        0
    };
    proof {
        lemma_after_sign(chars@);
    }
    if from >= chars.len() || !digits_only(&chars, from) {
        return None;
    }
    match magnitude(&chars, from) {
        Some(n) => if n <= usize::MAX as u64 {
            Some(n as usize)
        } else {
            None
        },
        None => None,
    }
}

/// Reads an `i64` as [`i64_of`] defines it.
pub fn parse_i64(text: &str) -> (r: Option<i64>)
    ensures
        r == i64_of(text@),
{
    let chars = chars_of(text);
    let negative: bool = chars.len() > 0 && chars[0] == '-';
    let from: usize = if chars.len() > 0 && (chars[0] == '+' || chars[0] == '-') {
        1
    } else {
        0
    };
    proof {
        lemma_after_sign(chars@);
    }
    if from >= chars.len() || !digits_only(&chars, from) {
        return None;
    }
    match magnitude(&chars, from) {
        Some(n) => if negative {
            if n <= 0x7FFF_FFFF_FFFF_FFFF {
                Some(-(n as i64))
            } else if n == 0x8000_0000_0000_0000 {
                Some(i64::MIN)
            } else {
                None
            }
        } else if n <= 0x7FFF_FFFF_FFFF_FFFF {
            Some(n as i64)
        } else {
            None
        },
        None => None,
    }
}

/// The digit for `d` as a string of its own.
fn digit_str(d: usize) -> (r: &'static str)
    requires
        d < 10,
    ensures
        r@ == seq![digit_char(d as nat)],
{
    proof {
        reveal_strlit("0");
        reveal_strlit("1");
        reveal_strlit("2");
        reveal_strlit("3");
        reveal_strlit("4");
        reveal_strlit("5");
        reveal_strlit("6");
        reveal_strlit("7");
        reveal_strlit("8");
        reveal_strlit("9");
    }
    let r = if d == 0 {
        "0"
    } else if d == 1 {
        "1"
    } else if d == 2 {
        "2"
    } else if d == 3 {
        "3"
    } else if d == 4 {
        "4"
    } else if d == 5 {
        "5"
    } else if d == 6 {
        "6"
    } else if d == 7 {
        "7"
    } else if d == 8 {
        "8"
    } else {
        "9"
    };
    assert(r@ =~= seq![digit_char(d as nat)]);
    r
}

/// Writes `n` in decimal, as [`decimal`] defines it.
pub fn render_usize(n: usize) -> (r: String)
    ensures
        r@ == decimal(n as nat),
    decreases n,
{
    if n < 10 {
        digit_str(n).to_owned()
    } else {
        let mut head = render_usize(n / 10);
        head.append(digit_str(n % 10));
        assert(head@ =~= decimal((n / 10) as nat).push(digit_char((n % 10) as nat)));
        head
    }
}

/// What [`decimal`] writes holds digits only, and they write the number back.
pub proof fn lemma_decimal_digits(n: nat)
    ensures
        decimal(n).len() > 0,
        all_digits(decimal(n)),
        digits_value(decimal(n)) == n,
    decreases n,
{
    if n < 10 {
        assert(decimal(n).drop_last() =~= Seq::<char>::empty());
        assert(digits_value(decimal(n).drop_last()) == 0);
    } else {
        lemma_decimal_digits(n / 10);
        assert(decimal(n).drop_last() =~= decimal(n / 10));
    }
}

/// Reading what [`decimal`] wrote gives the number back.
pub proof fn lemma_decimal_round_trip(n: nat)
    ensures
        unsigned_of(decimal(n)) == Some(n),
        signed_of(decimal(n)) == Some(n as int),
        n <= usize::MAX ==> usize_of(decimal(n)) == Some(n as usize),
        n <= i64::MAX ==> i64_of(decimal(n)) == Some(n as i64),
{
    lemma_decimal_digits(n);
    assert(is_digit(decimal(n)[0]));
}

/// What [`decimal`] writes can stand for a value in a line.
pub proof fn lemma_decimal_is_value(n: nat)
    ensures
        is_value(decimal(n)),
{
    lemma_decimal_digits(n);
    let d = decimal(n);
    assert(is_digit(d.first()));
    assert(is_digit(d.last()));
    assert forall|i: int| 0 <= i < d.len() implies d[i] != '\n' by {
        assert(is_digit(d[i]));
    }
}

/// Reading what [`integer`] wrote gives the number back, and what it writes
/// can stand for a value in a line.
pub proof fn lemma_integer_round_trip(n: int)
    ensures
        signed_of(integer(n)) == Some(n),
        i64::MIN <= n <= i64::MAX ==> i64_of(integer(n)) == Some(n as i64),
        is_value(integer(n)),
{
    let m = if n < 0 {
        (-n) as nat
    } else {
        n as nat
    };
    lemma_decimal_digits(m);
    lemma_decimal_is_value(m);
    assert(is_digit(decimal(m)[0]));
    if n < 0 {
        let s = integer(n);
        assert(s.drop_first() =~= decimal(m));
        assert(s.last() == decimal(m).last());
        assert forall|i: int| 0 <= i < s.len() implies s[i] != '\n' by {
            if i > 0 {
                assert(decimal(m).contains(decimal(m)[i - 1]));
            }
        }
    }
}

} // verus!
