//! Decimal texts of integers, both ways.

use vstd::prelude::*;

use crate::text::{chars, decimal_digit, text};
use crate::text::is_digit;

verus! {

/// The digit character of a value below ten.
pub open spec fn digit_char(d: nat) -> char {
    (('0' as u32) + d) as char
}

/// The value of a digit character.
pub open spec fn digit_value(c: char) -> nat {
    ((c as u32) - ('0' as u32)) as nat
}

/// The decimal digits of a natural number.
pub open spec fn decimal(n: nat) -> Seq<char>
    decreases n,
{
    if n < 10 {
        seq![digit_char(n)]
    } else {
        decimal(n / 10).push(digit_char(n % 10))
    }
}

/// The decimal text of an integer.
pub open spec fn decimal_int(n: int) -> Seq<char> {
    if n < 0 {
        seq!['-'] + decimal((-n) as nat)
    } else {
        decimal(n as nat)
    }
}

/// The digit character of a value below ten.
fn digit(d: u8) -> (r: char)
    requires
        d < 10,
    ensures
        r == digit_char(d as nat),
{
    (48u8 + d) as char
}

/// The decimal digits of `n`.
pub fn decimal_chars(n: u64) -> (r: Vec<char>)
    ensures
        r@ == decimal(n as nat),
    decreases n,
{
    if n < 10 {
        let mut out: Vec<char> = Vec::new();
        out.push(digit(n as u8));
        out
    } else {
        let mut out = decimal_chars(n / 10);
        out.push(digit((n % 10) as u8));
        out
    }
}

/// The decimal text of `n`.
pub fn render(n: u64) -> (r: String)
    ensures
        r@ == decimal(n as nat),
{
    text(&decimal_chars(n))
}

/// The decimal text of `n`.
pub fn render_signed(n: i64) -> (r: String)
    ensures
        r@ == decimal_int(n as int),
{
    if n >= 0 {
        return render(n as u64);
    }
    let magnitude: u64 = if n == i64::MIN {
        0x8000_0000_0000_0000u64
    } else {
        (-n) as u64
    };
    let mut out = String::new();
    out.push('-');
    let digits = render(magnitude);
    out.append(digits.as_str());
    proof {
        assert(out@ =~= seq!['-'] + digits@);
    }
    out
}

/// The number that a run of digits stands for.
pub open spec fn digits_value(s: Seq<char>) -> nat
    decreases s.len(),
{
    if s.len() == 0 {
        0
    } else {
        digits_value(s.drop_last()) * 10 + digit_value(s.last())
    }
}

/// A non-empty run of digits.
pub open spec fn all_digits(s: Seq<char>) -> bool {
    s.len() > 0 && forall|i: int| 0 <= i < s.len() ==> is_digit(#[trigger] s[i])
}

/// Whether a text is a non-empty run of digits.
pub fn is_all_digits(s: &str) -> (r: bool)
    ensures
        r == all_digits(s@),
{
    let v = chars(s);
    let mut i: usize = 0;
    while i < v.len()
        invariant
            i <= v.len(),
            v@ == s@,
            forall|k: int| 0 <= k < i ==> is_digit(#[trigger] v@[k]),
        decreases v.len() - i,
    {
        if !decimal_digit(v[i]) {
            return false;
        }
        i = i + 1;
    }
    v.len() > 0
}

/// The integer that a text stands for: digits after an optional sign.
pub open spec fn integer_value(s: Seq<char>) -> Option<int> {
    if s.len() > 0 && s[0] == '-' {
        if all_digits(s.skip(1)) {
            Some(-(digits_value(s.skip(1)) as int))
        } else {
            None
        }
    } else {
        natural_value(s)
    }
}

/// The natural number that a text stands for: digits after an optional `+`.
pub open spec fn natural_value(s: Seq<char>) -> Option<int> {
    let digits = if s.len() > 0 && s[0] == '+' {
        s.skip(1)
    } else {
        s
    };
    if all_digits(digits) {
        Some(digits_value(digits) as int)
    } else {
        None
    }
}

proof fn lemma_digits_value_grows(s: Seq<char>, n: int)
    requires
        0 <= n <= s.len(),
    ensures
        digits_value(s.take(n)) <= digits_value(s),
    decreases s.len() - n,
{
    if n < s.len() {
        lemma_digits_value_grows(s, n + 1);
        assert(s.take(n + 1).drop_last() =~= s.take(n));
    } else {
        assert(s.take(n) =~= s);
    }
}

/// The value of the digits from `from` on, if they are a run of digits whose
/// value fits in 64 bits.
fn parse_digits(v: &Vec<char>, from: usize) -> (r: Option<u64>)
    requires
        from <= v.len(),
    ensures
        r.is_some() == (all_digits(v@.skip(from as int)) && digits_value(v@.skip(from as int))
            <= u64::MAX),
        r matches Some(n) ==> n == digits_value(v@.skip(from as int)),
{
    let ghost all = v@.skip(from as int);
    if from == v.len() {
        return None;
    }
    let mut value: u64 = 0;
    let mut i: usize = from;
    while i < v.len()
        invariant
            from <= i <= v.len(),
            from < v.len(),
            all == v@.skip(from as int),
            value == digits_value(all.take(i - from)),
            forall|j: int| 0 <= j < i - from ==> is_digit(#[trigger] all[j]),
        decreases v.len() - i,
    {
        let c = v[i];
        proof {
            assert(all[i - from] == c);
            assert(all.take(i - from + 1).drop_last() =~= all.take(i - from));
        }
        if !decimal_digit(c) {
            return None;
        }
        let d: u64 = (c as u32 - '0' as u32) as u64;
        proof {
            lemma_digits_value_grows(all, i - from + 1);
        }
        if value > (u64::MAX - d) / 10 {
            proof {
                assert(value * 10 + d > u64::MAX);
            }
            return None;
        }
        value = value * 10 + d;
        i = i + 1;
    }
    proof {
        assert(all.take(i - from) =~= all);
    }
    Some(value)
}

/// The unsigned integer that a text stands for, if it is one.
pub fn parse_unsigned(s: &str) -> (r: Option<u64>)
    ensures
        r matches Some(n) ==> natural_value(s@) == Some(n as int),
        r is None ==> (natural_value(s@) matches Some(n) ==> n > u64::MAX),
{
    let v = chars(s);
    if v.len() > 0 && v[0] == '+' {
        parse_digits(&v, 1)
    } else {
        proof {
            assert(v@.skip(0) =~= v@);
        }
        parse_digits(&v, 0)
    }
}

/// The signed integer that a text stands for, if it is one.
pub fn parse_signed(s: &str) -> (r: Option<i64>)
    ensures
        r matches Some(n) ==> integer_value(s@) == Some(n as int),
        r is None ==> (integer_value(s@) matches Some(n) ==> n > i64::MAX || n < i64::MIN),
{
    let v = chars(s);
    if v.len() > 0 && v[0] == '-' {
        match parse_digits(&v, 1) {
            Some(n) => if n < 0x8000_0000_0000_0000u64 {
                Some(-(n as i64))
            } else if n == 0x8000_0000_0000_0000u64 {
                Some(i64::MIN)
            } else {
                None
            },
            None => None,
        }
    } else {
        match parse_unsigned(s) {
            Some(n) => if n <= 0x7fff_ffff_ffff_ffffu64 {
                Some(n as i64)
            } else {
                None
            },
            None => None,
        }
    }
}

/// The 64-bit signed integer that a text stands for, if it is one.
pub open spec fn i64_value(s: Seq<char>) -> Option<i64> {
    match integer_value(s) {
        Some(n) => if i64::MIN <= n <= i64::MAX {
            Some(n as i64)
        } else {
            None
        },
        None => None,
    }
}

/// The 64-bit signed integer that a text stands for, if it is one.
pub fn parse_i64(s: &str) -> (r: Option<i64>)
    ensures
        r == i64_value(s@),
{
    parse_signed(s)
}

// ---- laws ---------------------------------------------------------------------------------

/// A number that is written in decimal is read back as it was; it is written
/// with digits alone, and only zero begins with a zero.
pub proof fn law_written_numbers_read_back(n: nat)
    ensures
        all_digits(decimal(n)),
        natural_value(decimal(n)) == Some(n as int),
        decimal(n)[0] == '0' ==> n == 0,
    decreases n,
{
    let s = decimal(n);
    if n >= 10 {
        law_written_numbers_read_back(n / 10);
        let front = decimal(n / 10);
        assert(s.drop_last() =~= front);
        assert(s[0] == front[0]);
        assert forall|i: int| 0 <= i < s.len() implies is_digit(#[trigger] s[i]) by {
            if i < front.len() {
                assert(s[i] == front[i]);
                assert(is_digit(front[i]));
            }
        }
        assert(is_digit(front[0]));
        assert(natural_value(front) == Some(digits_value(front) as int));
    } else {
        assert(s.drop_last() =~= seq![]);
        assert(digits_value(seq![]) == 0);
        assert(digits_value(s) == digit_value(s[0]));
    }
    assert(s[0] != '+');
    assert(digits_value(s) == n);
}

/// A whole number that is written in decimal is read back as it was.
pub proof fn law_written_integers_read_back(n: int)
    ensures
        integer_value(decimal_int(n)) == Some(n),
        n < 0 <==> decimal_int(n)[0] == '-',
{
    if n < 0 {
        law_written_numbers_read_back((-n) as nat);
        let digits = decimal((-n) as nat);
        assert(decimal_int(n).skip(1) =~= digits);
        assert(is_digit(digits[0]));
        assert(digits[0] != '+');
    } else {
        law_written_numbers_read_back(n as nat);
        assert(is_digit(decimal(n as nat)[0]));
    }
}

} // verus!
