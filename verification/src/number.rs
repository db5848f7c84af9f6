//! Decimal numbers and truth values, written out and read back.
use vstd::prelude::*;
use vstd::slice::slice_subrange;
use crate::text::{is_text, white_space};

verus! {

/// Whether `c` is one of the digits `0` to `9`.
pub open spec fn is_digit(c: char) -> bool {
    '0' as u32 <= c as u32 <= '9' as u32
}

/// The value of the digit `c`.
pub open spec fn digit_value(c: char) -> int {
    c as u32 - '0' as u32
}

/// The digit whose value is `d`.
pub open spec fn digit(d: int) -> char {
    ('0' as u32 + d) as char
}

/// Whether `s` is made of digits alone.
pub open spec fn all_digits(s: Seq<char>) -> bool {
    forall|i: int| 0 <= i < s.len() ==> is_digit(#[trigger] s[i])
}

/// The number that the digits `s` denote in base ten.
pub open spec fn digits_value(s: Seq<char>) -> int
    decreases s.len(),
{
    if s.len() == 0 {
        0
    } else {
        10 * digits_value(s.drop_last()) + digit_value(s.last())
    }
}

/// The number that `s` denotes if it is a non-empty run of digits.
pub open spec fn read_digits(s: Seq<char>) -> Option<int> {
    if s.len() > 0 && all_digits(s) {
        Some(digits_value(s))
    } else {
        None
    }
}

/// The number that `s` denotes: digits, with an optional `+` before them. Nothing above `max` is
/// accepted.
pub open spec fn read_unsigned(s: Seq<char>, max: int) -> Option<int> {
    let digits = if s.len() > 0 && s.first() == '+' {
        s.drop_first()
    } else {
        s
    };
    match read_digits(digits) {
        Some(n) => if n <= max {
            Some(n)
        } else {
            None
        },
        None => None,
    }
}

/// The number that `s` denotes: digits, with an optional `+` or `-` before them. Nothing outside
/// `min` to `max` is accepted.
pub open spec fn read_signed(s: Seq<char>, min: int, max: int) -> Option<int> {
    if s.len() > 0 && s.first() == '-' {
        match read_digits(s.drop_first()) {
            Some(n) => if -n >= min {
                Some(-n)
            } else {
                None
            },
            None => None,
        }
    } else {
        read_unsigned(s, max)
    }
}

/// The truth value that `s` spells.
pub open spec fn read_bool(s: Seq<char>) -> Option<bool> {
    if s == "true"@ {
        Some(true)
    } else if s == "false"@ {
        Some(false)
    } else {
        None
    }
}

/// `n` in base ten, without leading zeros.
pub open spec fn decimal(n: nat) -> Seq<char>
    decreases n,
{
    if n < 10 {
        seq![digit(n as int)]
    } else {
        decimal(n / 10).push(digit((n % 10) as int))
    }
}

/// `n` in base ten, with a `-` before it if it is negative.
pub open spec fn signed_decimal(n: int) -> Seq<char> {
    if n < 0 {
        seq!['-'] + decimal((-n) as nat)
    } else {
        decimal(n as nat)
    }
}

/// How a truth value is spelt.
pub open spec fn bool_text(b: bool) -> Seq<char> {
    if b {
        "true"@
    } else {
        "false"@
    }
}

/// Reading digits that were written gives the number back.
pub proof fn lemma_decimal(n: nat)
    ensures
        decimal(n).len() > 0,
        all_digits(decimal(n)),
        digits_value(decimal(n)) == n,
    decreases n,
{
    if n < 10 {
        let s = decimal(n);
        assert(s.drop_last() =~= Seq::<char>::empty());
        assert(digits_value(s.drop_last()) == 0);
    } else {
        lemma_decimal(n / 10);
        assert(decimal(n).drop_last() =~= decimal(n / 10));
    }
}

/// An unsigned number within bounds is read back from its decimal form.
pub proof fn lemma_read_decimal(n: nat, max: int)
    requires
        n <= max,
    ensures
        read_unsigned(decimal(n), max) == Some(n as int),
{
    lemma_decimal(n);
    assert(is_digit(decimal(n)[0]));
}

/// A signed number within bounds is read back from its decimal form.
pub proof fn lemma_read_signed_decimal(n: int, min: int, max: int)
    requires
        min <= n <= max,
    ensures
        read_signed(signed_decimal(n), min, max) == Some(n),
{
    if n < 0 {
        lemma_decimal((-n) as nat);
        assert(signed_decimal(n).drop_first() =~= decimal((-n) as nat));
    } else {
        lemma_decimal(n as nat);
        assert(is_digit(decimal(n as nat)[0]));
        lemma_read_decimal(n as nat, max);
    }
}

/// A truth value is read back from its spelling.
pub proof fn lemma_read_bool(b: bool)
    ensures
        read_bool(bool_text(b)) == Some(b),
{
    reveal_strlit("true");
    reveal_strlit("false");
    assert("true"@.len() != "false"@.len());
}

/// No number that is written holds white space.
pub proof fn lemma_decimal_has_no_space(n: int, i: int)
    requires
        0 <= i < signed_decimal(n).len(),
    ensures
        !white_space(signed_decimal(n)[i]),
{
    if n < 0 {
        lemma_decimal((-n) as nat);
        if i > 0 {
            assert(signed_decimal(n)[i] == decimal((-n) as nat)[i - 1]);
        }
    } else {
        lemma_decimal(n as nat);
    }
}

/// Putting further digits behind a number makes it no smaller.
proof fn lemma_more_digits(s: Seq<char>, i: int)
    requires
        0 <= i <= s.len(),
        all_digits(s),
    ensures
        0 <= digits_value(s.take(i)) <= digits_value(s),
    decreases s.len(),
{
    if i == s.len() {
        assert(s.take(i) =~= s);
        if s.len() > 0 {
            lemma_more_digits(s.drop_last(), i - 1);
            assert(is_digit(s.last()));
        }
    } else {
        lemma_more_digits(s.drop_last(), i);
        assert(s.drop_last().take(i) =~= s.take(i));
        assert(is_digit(s.last()));
    }
}

/// What is read without a sign lies between zero and the bound.
pub proof fn lemma_read_unsigned_bounds(s: Seq<char>, max: int)
    ensures
        match read_unsigned(s, max) {
            Some(n) => 0 <= n <= max,
            None => true,
        },
{
    let digits = if s.len() > 0 && s.first() == '+' {
        s.drop_first()
    } else {
        s
    };
    if all_digits(digits) {
        lemma_more_digits(digits, digits.len() as int);
    }
}

/// What is read with a sign lies between the bounds, if zero does.
pub proof fn lemma_read_signed_bounds(s: Seq<char>, min: int, max: int)
    requires
        min <= 0 <= max,
    ensures
        match read_signed(s, min, max) {
            Some(n) => min <= n <= max,
            None => true,
        },
{
    lemma_read_unsigned_bounds(s, max);
    if s.len() > 0 && s.first() == '-' {
        let digits = s.drop_first();
        if all_digits(digits) {
            lemma_more_digits(digits, digits.len() as int);
        }
    }
}

/// The number that the digits `s` denote, if it is at most `max`.
fn parse_digits(s: &[char], max: u64) -> (r: Option<u64>)
    ensures
        match r {
            Some(n) => read_digits(s@) == Some(n as int) && n <= max,
            None => match read_digits(s@) {
                Some(n) => n > max,
                None => true,
            },
        },
{
    if s.len() == 0 {
        return None;
    }
    let mut n: u64 = 0;
    let mut i: usize = 0;
    while i < s.len()
        invariant
            i <= s.len(),
            s@.len() > 0,
            n <= max,
            all_digits(s@.take(i as int)),
            n == digits_value(s@.take(i as int)),
        decreases s.len() - i,
    {
        let c: u32 = s[i] as u32;
        let ghost done = s@.take(i + 1);
        assert(done.drop_last() =~= s@.take(i as int));
        if c < '0' as u32 || c > '9' as u32 {
            assert(!is_digit(s@[i as int]));
            return None;
        }
        let d: u64 = (c - '0' as u32) as u64;
        assert(all_digits(done)) by {
            assert forall|j: int| 0 <= j < done.len() implies is_digit(#[trigger] done[j]) by {
                if j < i {
                    assert(s@.take(i as int)[j] == done[j]);
                }
            }
        }
        assert(digits_value(done) == 10 * n + d);
        if n > max / 10 || d > max - 10 * n {
            proof {
                if all_digits(s@) {
                    lemma_more_digits(s@, i + 1);
                }
            }
            return None;
        }
        n = 10 * n + d;
        i += 1;
    }
    assert(s@.take(i as int) =~= s@);
    Some(n)
}

/// Reads an unsigned number that is at most `max`.
pub fn parse_unsigned(s: &[char], max: u64) -> (r: Option<u64>)
    ensures
        match r {
            Some(n) => read_unsigned(s@, max as int) == Some(n as int),
            None => read_unsigned(s@, max as int) is None,
        },
{
    if s.len() > 0 && s[0] == '+' {
        let digits = slice_subrange(s, 1, s.len());
        assert(digits@ =~= s@.drop_first());
        parse_digits(digits, max)
    } else {
        parse_digits(s, max)
    }
}

/// Reads a number that fits in 8 bits.
pub fn parse_u8(s: &[char]) -> (r: Option<u8>)
    ensures
        match r {
            Some(n) => read_unsigned(s@, u8::MAX as int) == Some(n as int),
            None => read_unsigned(s@, u8::MAX as int) is None,
        },
{
    match parse_unsigned(s, 0xff) {
        Some(n) => Some(n as u8),
        None => None,
    }
}

/// Reads a number that fits in 32 bits.
pub fn parse_u32(s: &[char]) -> (r: Option<u32>)
    ensures
        match r {
            Some(n) => read_unsigned(s@, u32::MAX as int) == Some(n as int),
            None => read_unsigned(s@, u32::MAX as int) is None,
        },
{
    match parse_unsigned(s, 0xffff_ffff) {
        Some(n) => Some(n as u32),
        None => None,
    }
}

/// Reads a number that fits in 64 bits.
pub fn parse_u64(s: &[char]) -> (r: Option<u64>)
    ensures
        match r {
            Some(n) => read_unsigned(s@, u64::MAX as int) == Some(n as int),
            None => read_unsigned(s@, u64::MAX as int) is None,
        },
{
    parse_unsigned(s, u64::MAX)
}

/// Reads a signed number that fits in 64 bits.
pub fn parse_i64(s: &[char]) -> (r: Option<i64>)
    ensures
        match r {
            Some(n) => read_signed(s@, i64::MIN as int, i64::MAX as int) == Some(n as int),
            None => read_signed(s@, i64::MIN as int, i64::MAX as int) is None,
        },
{
    if s.len() > 0 && s[0] == '-' {
        let digits = slice_subrange(s, 1, s.len());
        assert(digits@ =~= s@.drop_first());
        match parse_digits(digits, 0x8000_0000_0000_0000) {
            Some(n) => if n == 0x8000_0000_0000_0000 {
                Some(i64::MIN)
            } else {
                Some(-(n as i64))
            },
            None => None,
        }
    } else {
        match parse_unsigned(s, 0x7fff_ffff_ffff_ffff) {
            Some(n) => Some(n as i64),
            None => None,
        }
    }
}

/// Reads `true` or `false`.
pub fn parse_bool(s: &[char]) -> (r: Option<bool>)
    ensures
        r == read_bool(s@),
{
    if is_text(s, "true") {
        Some(true)
    } else if is_text(s, "false") {
        Some(false)
    } else {
        None
    }
}

/// `n` in base ten.
pub fn u64_to_text(n: u64) -> (text: String)
    ensures
        text@ == decimal(n as nat),
    decreases n,
{
    let mut text = if n < 10 {
        String::new()
    } else {
        u64_to_text(n / 10)
    };
    let d: u8 = (n % 10) as u8;
    let c = (0x30 + d) as char;
    assert(c == digit(d as int));
    text.push(c);
    text
}

/// `n` in base ten, with its sign if it is negative.
pub fn i64_to_text(n: i64) -> (text: String)
    ensures
        text@ == signed_decimal(n as int),
{
    if n < 0 {
        let mut text = String::new();
        text.push('-');
        let magnitude: u64 = if n == i64::MIN {
            0x8000_0000_0000_0000
        } else {
            (-n) as u64
        };
        let digits = u64_to_text(magnitude);
        text.append(digits.as_str());
        text
    } else {
        u64_to_text(n as u64)
    }
}

/// How a truth value is spelt.
pub fn bool_to_text(b: bool) -> (text: &'static str)
    ensures
        text@ == bool_text(b),
{
    if b {
        "true"
    } else {
        "false"
    }
}

/// Numbers are written in base ten: a number below ten is its digit, and any other is written as
/// what is left without the last digit, followed by that digit. A negative number has a `-` before
/// it.
pub proof fn numbers_are_written_in_base_ten(n: nat, d: nat)
    requires
        d <= 9,
    ensures
        decimal(d) == seq![(48 + d) as char],
        n > 0 ==> decimal((10 * n + d) as nat) == decimal(n).push((48 + d) as char),
        signed_decimal(n as int) == decimal(n),
        n > 0 ==> signed_decimal(-(n as int)) == seq!['-'] + decimal(n),
{
}

/// Numbers are read in base ten: a digit stands for itself, and one that is put behind a number
/// counts below ten times that number.
pub proof fn digits_are_read_in_base_ten(s: Seq<char>, d: int, max: int)
    requires
        0 <= d <= 9,
    ensures
        read_unsigned(seq![(48 + d) as char], max) == if d <= max {
            Some(d)
        } else {
            None
        },
        match read_unsigned(s, max) {
            Some(n) => read_unsigned(s.push((48 + d) as char), max) == if 10 * n + d <= max {
                Some(10 * n + d)
            } else {
                None
            },
            None => true,
        },
{
    let c = (48 + d) as char;
    let one = seq![c];
    assert(one.drop_last() =~= Seq::<char>::empty());
    assert(digits_value(one.drop_last()) == 0);
    assert(is_digit(c));
    assert(digits_value(one) == d);
    if let Some(n) = read_unsigned(s, max) {
        let digits = if s.len() > 0 && s.first() == '+' {
            s.drop_first()
        } else {
            s
        };
        let more = s.push(c);
        let more_digits = digits.push(c);
        assert(more_digits.drop_last() =~= digits);
        if s.first() == '+' {
            assert(more.drop_first() =~= more_digits);
        }
        assert forall|i: int| 0 <= i < more_digits.len() implies is_digit(
            #[trigger] more_digits[i],
        ) by {
            if i < digits.len() {
                assert(more_digits[i] == digits[i]);
            }
        }
    }
}

/// Only digits are read as a number, at least one of them, with or without a `+` before them. The
/// bound decides whether a number is accepted and never which number it is.
pub proof fn only_digits_are_numbers(s: Seq<char>, max: int, higher: int)
    ensures
        read_unsigned(s, max) is Some ==> ({
            let digits = if s.first() == '+' {
                s.skip(1)
            } else {
                s
            };
            digits.len() > 0 && forall|i: int|
                0 <= i < digits.len() ==> 48 <= (#[trigger] digits[i]) as u32 <= 57
        }),
        s.len() > 0 && s.first() != '+' ==> read_unsigned(seq!['+'] + s, max) == read_unsigned(
            s,
            max,
        ),
        max <= higher ==> match read_unsigned(s, higher) {
            Some(n) => 0 <= n <= higher && read_unsigned(s, max) == if n <= max {
                Some(n)
            } else {
                None
            },
            None => read_unsigned(s, max) is None,
        },
{
    lemma_read_unsigned_bounds(s, higher);
    assert((seq!['+'] + s).drop_first() =~= s);
    if read_unsigned(s, max) is Some {
        let digits = if s.first() == '+' {
            s.skip(1)
        } else {
            s
        };
        assert(s.skip(1) =~= s.drop_first());
        assert forall|i: int| 0 <= i < digits.len() implies 48 <= (#[trigger] digits[i]) as u32
            <= 57 by {
            assert(is_digit(digits[i]));
        }
    }
}

/// With a `-` before it a number is read as its negative, down to the lower bound; a second sign
/// is not accepted. Without a `-` nothing but the upper bound counts.
pub proof fn minus_makes_a_number_negative(s: Seq<char>, min: int, max: int)
    ensures
        s.len() > 0 && s.first() == '+' ==> read_signed(seq!['-'] + s, min, max) is None,
        !(s.len() > 0 && s.first() == '+') ==> read_signed(seq!['-'] + s, min, max) == (
        match read_unsigned(s, -min) {
            Some(n) => Some(-n),
            None => None,
        }),
        !(s.len() > 0 && s.first() == '-') ==> read_signed(s, min, max) == read_unsigned(s, max),
{
    assert((seq!['-'] + s).drop_first() =~= s);
    if s.len() > 0 && s.first() == '+' {
        assert(!is_digit(s[0]));
    }
}

} // verus!
